//! The chat-component renderer: walks a recursive JSON text structure with
//! an explicit work stack, tracking two independent styling systems — the
//! structural one, inherited down the tree, and the legacy in-text one,
//! driven by marker characters and strictly local to its text run.

use vstd::prelude::*;

use crate::json::JsonValue;
use crate::json::json_size;
use crate::json::json_list_size;
use crate::json::json_fields_size;
use crate::json::lemma_obj_get_size;
use crate::json::obj_get;
use crate::json::spec_obj_get;
use crate::json::str_eq;
use crate::numtext::dec_digits;
use crate::numtext::fmt_u64;

verus! {

/// An RGB color.
#[derive(Clone, Copy, Debug, PartialEq, Eq, Structural)]
pub struct Color {
    pub red: u8,
    pub green: u8,
    pub blue: u8,
}

/// The cumulative structural formatting state a component inherits from its
/// ancestors unless it overrides a field itself.
#[derive(Clone, Copy)]
pub struct Style {
    pub bold: bool,
    pub italic: bool,
    pub underline: bool,
    pub strikethrough: bool,
    pub obfuscated: bool,
    pub color: Option<Color>,
}

impl Style {
    /// The style with nothing set: the root of structural inheritance.
    pub open spec fn spec_plain() -> Style {
        Style {
            bold: false,
            italic: false,
            underline: false,
            strikethrough: false,
            obfuscated: false,
            color: None,
        }
    }

    pub fn plain() -> (r: Style)
        ensures
            r == Style::spec_plain(),
    {
        Style {
            bold: false,
            italic: false,
            underline: false,
            strikethrough: false,
            obfuscated: false,
            color: None,
        }
    }
}

/// An SGR escape sequence around the given code characters.
pub open spec fn ansi_color_parts(red: Seq<char>, green: Seq<char>, blue: Seq<char>) -> Seq<
    char,
> {
    seq!['\u{1b}', '[', '3', '8', ';', '2', ';'] + red + seq![';'] + green + seq![';'] + blue
        + seq!['m']
}

pub open spec fn sgr_color(c: Color) -> Seq<char> {
    ansi_color_parts(
        dec_digits(c.red as nat),
        dec_digits(c.green as nat),
        dec_digits(c.blue as nat),
    )
}

pub open spec fn sgr_reset() -> Seq<char> {
    seq!['\u{1b}', '[', '0', 'm']
}

pub open spec fn sgr_bold() -> Seq<char> {
    seq!['\u{1b}', '[', '1', 'm']
}

pub open spec fn sgr_italic() -> Seq<char> {
    seq!['\u{1b}', '[', '3', 'm']
}

pub open spec fn sgr_underline() -> Seq<char> {
    seq!['\u{1b}', '[', '4', 'm']
}

pub open spec fn sgr_blink() -> Seq<char> {
    seq!['\u{1b}', '[', '5', 'm']
}

pub open spec fn sgr_strikethrough() -> Seq<char> {
    seq!['\u{1b}', '[', '9', 'm']
}

/// Appends a 24-bit SGR color sequence built from decimal channel strings,
/// in the form `ESC[38;2;R;G;Bm`.
pub fn push_ansi_color_sequence(out: &mut String, red: &str, green: &str, blue: &str)
    ensures
        final(out)@ == old(out)@ + ansi_color_parts(red@, green@, blue@),
{
    proof {
        reveal_strlit("\u{1b}[38;2;");
        reveal_strlit(";");
        reveal_strlit("m");
    }
    out.append("\u{1b}[38;2;");
    out.append(red);
    out.append(";");
    out.append(green);
    out.append(";");
    out.append(blue);
    out.append("m");
    proof {
        assert(final(out)@ =~= old(out)@ + ansi_color_parts(red@, green@, blue@));
    }
}

/// Appends the SGR color sequence for `c`.
fn emit_color(out: &mut String, c: Color)
    ensures
        final(out)@ == old(out)@ + sgr_color(c),
{
    let red = fmt_u64(c.red as u64);
    let green = fmt_u64(c.green as u64);
    let blue = fmt_u64(c.blue as u64);
    push_ansi_color_sequence(out, red.as_str(), green.as_str(), blue.as_str());
}

/// The escape sequences that open a structural style: color first, then each
/// set flag, each an independent terminal attribute.
pub open spec fn style_prefix(st: Style) -> Seq<char> {
    (match st.color {
        Some(c) => sgr_color(c),
        None => Seq::<char>::empty(),
    }) + (if st.bold {
        sgr_bold()
    } else {
        Seq::<char>::empty()
    }) + (if st.italic {
        sgr_italic()
    } else {
        Seq::<char>::empty()
    }) + (if st.underline {
        sgr_underline()
    } else {
        Seq::<char>::empty()
    }) + (if st.strikethrough {
        sgr_strikethrough()
    } else {
        Seq::<char>::empty()
    }) + (if st.obfuscated {
        sgr_blink()
    } else {
        Seq::<char>::empty()
    })
}

/// Appends the escape sequences opening `st`.  The blink attribute stands in
/// for obfuscated text, which has no terminal equivalent.
#[verifier::rlimit(50)]
fn emit_style_prefix(out: &mut String, st: Style)
    ensures
        final(out)@ == old(out)@ + style_prefix(st),
{
    proof {
        reveal_strlit("\u{1b}[1m");
        reveal_strlit("\u{1b}[3m");
        reveal_strlit("\u{1b}[4m");
        reveal_strlit("\u{1b}[9m");
        reveal_strlit("\u{1b}[5m");
    }
    match st.color {
        Some(c) => emit_color(out, c),
        None => {},
    }
    if st.bold {
        out.append("\u{1b}[1m");
    }
    if st.italic {
        out.append("\u{1b}[3m");
    }
    if st.underline {
        out.append("\u{1b}[4m");
    }
    if st.strikethrough {
        out.append("\u{1b}[9m");
    }
    if st.obfuscated {
        out.append("\u{1b}[5m");
    }
    proof {
        assert(final(out)@ =~= old(out)@ + style_prefix(st));
    }
}

/// Whether `c` is a hexadecimal digit, either case.
pub open spec fn is_hex_digit(c: char) -> bool {
    (48 <= c as u32 <= 57) || (97 <= c as u32 <= 102) || (65 <= c as u32 <= 70)
}

/// The value of a hexadecimal digit character.
pub open spec fn hex_digit_val(c: char) -> int {
    if 48 <= c as u32 <= 57 {
        c as u32 - 48
    } else if 97 <= c as u32 <= 102 {
        c as u32 - 87
    } else {
        c as u32 - 55
    }
}

pub open spec fn all_hex_digits(s: Seq<char>) -> bool {
    forall|i: int| 0 <= i < s.len() ==> is_hex_digit(s[i])
}

/// The numeric value of a hexadecimal digit string (0 for the empty string).
pub open spec fn hex_val(s: Seq<char>) -> int
    decreases s.len(),
{
    if s.len() == 0 {
        0
    } else {
        hex_val(s.drop_last()) * 16 + hex_digit_val(s.last())
    }
}

/// Powers of sixteen, for bounding hexadecimal digit strings.
pub open spec fn pow16(k: nat) -> nat
    decreases k,
{
    if k == 0 {
        1
    } else {
        16 * pow16((k - 1) as nat)
    }
}

/// A hexadecimal digit string's value is bounded by 16 to its length.
proof fn lemma_hex_val_bound(s: Seq<char>)
    requires
        all_hex_digits(s),
    ensures
        0 <= hex_val(s) < pow16(s.len()),
    decreases s.len(),
{
    if s.len() > 0 {
        assert(all_hex_digits(s.drop_last()));
        lemma_hex_val_bound(s.drop_last());
    }
}

/// Powers of sixteen grow with the exponent.
proof fn lemma_pow16_monotone(a: nat, b: nat)
    requires
        a <= b,
    ensures
        pow16(a) <= pow16(b),
    decreases b,
{
    if a < b {
        lemma_pow16_monotone(a, (b - 1) as nat);
    }
}

/// The two powers of sixteen the web-color parser needs.
proof fn lemma_pow16_vals()
    ensures
        pow16(5) == 0x100000,
        pow16(6) == 0x1000000,
{
    assert(pow16(0) == 1);
    assert(pow16(1) == 16);
    assert(pow16(2) == 0x100);
    assert(pow16(3) == 0x1000);
    assert(pow16(4) == 0x10000);
    assert(pow16(5) == 0x100000);
    assert(pow16(6) == 0x1000000);
}

/// Parsing a web color: `#` followed by exactly six hexadecimal digits,
/// whose three byte pairs are the channels; any other string is no color.
pub open spec fn spec_parse_web_color(s: Seq<char>) -> Option<Color> {
    if s.len() == 7 && s[0] == '#' {
        let digits = s.subrange(1, 7);
        if all_hex_digits(digits) {
            let n = hex_val(digits);
            Some(
                Color {
                    red: (n / 0x10000) as u8,
                    green: ((n / 0x100) % 0x100) as u8,
                    blue: (n % 0x100) as u8,
                },
            )
        } else {
            None
        }
    } else {
        None
    }
}

/// Parses a `#RRGGBB` web color literal: `#` and exactly six hexadecimal
/// digits; any other shape is no color.
pub fn parse_web_color(color: &str) -> (r: Option<Color>)
    ensures
        r == spec_parse_web_color(color@),
{
    let n = color.unicode_len();
    if n != 7 {
        return None;
    }
    if color.get_char(0) != '#' {
        return None;
    }
    let ghost digits = color@.subrange(1, 7);
    let mut acc: u32 = 0;
    let mut i: usize = 1;
    while i < 7
        invariant
            1 <= i <= 7,
            color@.len() == 7,
            color@[0] == '#',
            digits == color@.subrange(1, 7),
            all_hex_digits(color@.subrange(1, i as int)),
            acc == hex_val(color@.subrange(1, i as int)),
            acc < 0x1000000,
        decreases 7 - i,
    {
        let c = color.get_char(i);
        let u = c as u32;
        let d: u32 = if 48 <= u && u <= 57 {
            u - 48
        } else if 97 <= u && u <= 102 {
            u - 87
        } else if 65 <= u && u <= 70 {
            u - 55
        } else {
            proof {
                assert(digits[i - 1] == color@[i as int]);
                assert(!is_hex_digit(digits[i - 1]));
            }
            return None;
        };
        let ghost pre = color@.subrange(1, i as int);
        proof {
            assert(pre.push(c) =~= color@.subrange(1, i + 1));
            assert(pre.push(c).drop_last() =~= pre);
            assert(all_hex_digits(pre));
            lemma_hex_val_bound(pre);
            lemma_pow16_vals();
            assert(pre.len() <= 5);
            if pre.len() < 5 {
                assert(pow16(pre.len()) <= pow16(4) * 16) by {
                    lemma_pow16_monotone(pre.len(), 5);
                }
            }
        }
        acc = acc * 16 + d;
        i = i + 1;
        proof {
            assert(all_hex_digits(color@.subrange(1, i as int)));
            lemma_hex_val_bound(color@.subrange(1, i as int));
            lemma_pow16_vals();
            lemma_pow16_monotone(color@.subrange(1, i as int).len(), 6);
        }
    }
    proof {
        assert(color@.subrange(1, 7) =~= digits);
        assert((acc >> 16) as u8 == (acc as int / 0x10000) as u8 && (acc >> 8) as u8 == ((acc
            as int / 0x100) % 0x100) as u8 && acc as u8 == (acc as int % 0x100) as u8)
            by (bit_vector)
            requires acc < 0x1000000u32;
    }
    Some(
        Color {
            red: (acc >> 16) as u8,
            green: (acc >> 8) as u8,
            blue: acc as u8,
        },
    )
}

/// Resolving a color name: one of the sixteen fixed names, or a web color
/// literal; anything else is no color.
pub open spec fn spec_parse_color(s: Seq<char>) -> Option<Color> {
    if s == "black"@ {
        Some(Color { red: 0x00, green: 0x00, blue: 0x00 })
    } else if s == "dark_blue"@ {
        Some(Color { red: 0x00, green: 0x00, blue: 0xaa })
    } else if s == "dark_green"@ {
        Some(Color { red: 0x00, green: 0xaa, blue: 0x00 })
    } else if s == "dark_aqua"@ {
        Some(Color { red: 0x00, green: 0xaa, blue: 0xaa })
    } else if s == "dark_red"@ {
        Some(Color { red: 0xaa, green: 0x00, blue: 0x00 })
    } else if s == "dark_purple"@ {
        Some(Color { red: 0xaa, green: 0x00, blue: 0xaa })
    } else if s == "gold"@ {
        Some(Color { red: 0xff, green: 0xaa, blue: 0x00 })
    } else if s == "gray"@ {
        Some(Color { red: 0xaa, green: 0xaa, blue: 0xaa })
    } else if s == "dark_gray"@ {
        Some(Color { red: 0x55, green: 0x55, blue: 0x55 })
    } else if s == "blue"@ {
        Some(Color { red: 0x55, green: 0x55, blue: 0xff })
    } else if s == "green"@ {
        Some(Color { red: 0x55, green: 0xff, blue: 0x55 })
    } else if s == "aqua"@ {
        Some(Color { red: 0x55, green: 0xff, blue: 0xff })
    } else if s == "red"@ {
        Some(Color { red: 0xff, green: 0x55, blue: 0x55 })
    } else if s == "light_purple"@ {
        Some(Color { red: 0xff, green: 0x55, blue: 0xff })
    } else if s == "yellow"@ {
        Some(Color { red: 0xff, green: 0xff, blue: 0x55 })
    } else if s == "white"@ {
        Some(Color { red: 0xff, green: 0xff, blue: 0xff })
    } else {
        spec_parse_web_color(s)
    }
}

/// Resolves a structural color: the sixteen fixed names map to the same
/// triples as the legacy codes; otherwise a `#RRGGBB` literal is tried.
pub fn parse_color(color: &str) -> (r: Option<Color>)
    ensures
        r == spec_parse_color(color@),
{
    if str_eq(color, "black") {
        Some(Color { red: 0x00, green: 0x00, blue: 0x00 })
    } else if str_eq(color, "dark_blue") {
        Some(Color { red: 0x00, green: 0x00, blue: 0xaa })
    } else if str_eq(color, "dark_green") {
        Some(Color { red: 0x00, green: 0xaa, blue: 0x00 })
    } else if str_eq(color, "dark_aqua") {
        Some(Color { red: 0x00, green: 0xaa, blue: 0xaa })
    } else if str_eq(color, "dark_red") {
        Some(Color { red: 0xaa, green: 0x00, blue: 0x00 })
    } else if str_eq(color, "dark_purple") {
        Some(Color { red: 0xaa, green: 0x00, blue: 0xaa })
    } else if str_eq(color, "gold") {
        Some(Color { red: 0xff, green: 0xaa, blue: 0x00 })
    } else if str_eq(color, "gray") {
        Some(Color { red: 0xaa, green: 0xaa, blue: 0xaa })
    } else if str_eq(color, "dark_gray") {
        Some(Color { red: 0x55, green: 0x55, blue: 0x55 })
    } else if str_eq(color, "blue") {
        Some(Color { red: 0x55, green: 0x55, blue: 0xff })
    } else if str_eq(color, "green") {
        Some(Color { red: 0x55, green: 0xff, blue: 0x55 })
    } else if str_eq(color, "aqua") {
        Some(Color { red: 0x55, green: 0xff, blue: 0xff })
    } else if str_eq(color, "red") {
        Some(Color { red: 0xff, green: 0x55, blue: 0x55 })
    } else if str_eq(color, "light_purple") {
        Some(Color { red: 0xff, green: 0x55, blue: 0xff })
    } else if str_eq(color, "yellow") {
        Some(Color { red: 0xff, green: 0xff, blue: 0x55 })
    } else if str_eq(color, "white") {
        Some(Color { red: 0xff, green: 0xff, blue: 0xff })
    } else {
        parse_web_color(color)
    }
}

/// The index of the first legacy marker character in `s`, or `s.len()`.
pub open spec fn find_marker(s: Seq<char>) -> nat
    decreases s.len(),
{
    if s.len() == 0 {
        0
    } else if s[0] == '\u{a7}' {
        0
    } else {
        (1 + find_marker(s.drop_first())) as nat
    }
}

/// What [`find_marker`] returns: the position of the first marker.
pub proof fn lemma_find_marker(s: Seq<char>)
    ensures
        find_marker(s) <= s.len(),
        forall|j: int| 0 <= j < find_marker(s) ==> s[j] != '\u{a7}',
        find_marker(s) < s.len() ==> s[find_marker(s) as int] == '\u{a7}',
    decreases s.len(),
{
    if s.len() > 0 && s[0] != '\u{a7}' {
        lemma_find_marker(s.drop_first());
        assert forall|j: int| 0 <= j < find_marker(s) implies s[j] != '\u{a7}' by {
            if j > 0 {
                assert(s.drop_first()[j - 1] == s[j]);
            }
        }
    }
}

/// A position with no marker before it, and a marker (or the end) at it, is
/// what [`find_marker`] returns.
pub proof fn lemma_find_marker_at(s: Seq<char>, i: int)
    requires
        0 <= i <= s.len(),
        forall|j: int| 0 <= j < i ==> s[j] != '\u{a7}',
        i < s.len() ==> s[i] == '\u{a7}',
    ensures
        find_marker(s) == i,
    decreases s.len(),
{
    if s.len() == 0 {
    } else if s[0] == '\u{a7}' {
        assert(i == 0);
    } else {
        assert(i >= 1);
        assert forall|j: int| 0 <= j < i - 1 implies s.drop_first()[j] != '\u{a7}' by {
            assert(s.drop_first()[j] == s[j + 1]);
        }
        lemma_find_marker_at(s.drop_first(), i - 1);
    }
}

/// Scans for the first marker character at or after `from`.
fn find_marker_from(text: &str, from: usize) -> (r: usize)
    requires
        from <= text@.len(),
    ensures
        from <= r <= text@.len(),
        r - from == find_marker(text@.skip(from as int)),
        forall|j: int| from <= j < r ==> text@[j] != '\u{a7}',
        r < text@.len() ==> text@[r as int] == '\u{a7}',
{
    let n = text.unicode_len();
    let mut i: usize = from;
    while i < n
        invariant_except_break
            from <= i <= n,
            n == text@.len(),
            forall|j: int| from <= j < i ==> text@[j] != '\u{a7}',
        ensures
            from <= i <= n,
            n == text@.len(),
            forall|j: int| from <= j < i ==> text@[j] != '\u{a7}',
            i < n ==> text@[i as int] == '\u{a7}',
        decreases n - i,
    {
        if text.get_char(i) == '\u{a7}' {
            break;
        }
        i = i + 1;
    }
    proof {
        let s = text@.skip(from as int);
        assert forall|j: int| 0 <= j < i - from implies s[j] != '\u{a7}' by {
            assert(s[j] == text@[from + j]);
        }
        if i < n {
            assert(s[i - from] == text@[i as int]);
        }
        lemma_find_marker_at(s, i - from);
    }
    i
}

/// The output a legacy control code produces: one of the sixteen fixed
/// colors, an additive formatting toggle, the reset, or nothing for an
/// unrecognized code.
pub open spec fn legacy_code_seq(code: char) -> Seq<char> {
    if code == '0' {
        sgr_color(Color { red: 0, green: 0, blue: 0 })
    } else if code == '1' {
        sgr_color(Color { red: 0, green: 0, blue: 170 })
    } else if code == '2' {
        sgr_color(Color { red: 0, green: 170, blue: 0 })
    } else if code == '3' {
        sgr_color(Color { red: 0, green: 170, blue: 170 })
    } else if code == '4' {
        sgr_color(Color { red: 170, green: 0, blue: 0 })
    } else if code == '5' {
        sgr_color(Color { red: 170, green: 0, blue: 170 })
    } else if code == '6' {
        sgr_color(Color { red: 255, green: 170, blue: 0 })
    } else if code == '7' {
        sgr_color(Color { red: 170, green: 170, blue: 170 })
    } else if code == '8' {
        sgr_color(Color { red: 85, green: 85, blue: 85 })
    } else if code == '9' {
        sgr_color(Color { red: 85, green: 85, blue: 255 })
    } else if code == 'a' {
        sgr_color(Color { red: 85, green: 255, blue: 85 })
    } else if code == 'b' {
        sgr_color(Color { red: 85, green: 255, blue: 255 })
    } else if code == 'c' {
        sgr_color(Color { red: 255, green: 85, blue: 85 })
    } else if code == 'd' {
        sgr_color(Color { red: 255, green: 85, blue: 255 })
    } else if code == 'e' {
        sgr_color(Color { red: 255, green: 255, blue: 85 })
    } else if code == 'f' {
        sgr_color(Color { red: 255, green: 255, blue: 255 })
    } else if code == 'k' {
        sgr_blink()
    } else if code == 'l' {
        sgr_bold()
    } else if code == 'm' {
        sgr_strikethrough()
    } else if code == 'n' {
        sgr_underline()
    } else if code == 'o' {
        sgr_italic()
    } else if code == 'r' {
        sgr_reset()
    } else {
        Seq::<char>::empty()
    }
}

/// Appends what one legacy control code produces.
#[verifier::rlimit(50)]
fn emit_legacy_code(out: &mut String, code: char)
    ensures
        final(out)@ == old(out)@ + legacy_code_seq(code),
{
    proof {
        reveal_strlit("\u{1b}[5m");
        reveal_strlit("\u{1b}[1m");
        reveal_strlit("\u{1b}[9m");
        reveal_strlit("\u{1b}[4m");
        reveal_strlit("\u{1b}[3m");
        reveal_strlit("\u{1b}[0m");
    }
    if code == '0' {
        emit_color(out, Color { red: 0, green: 0, blue: 0 });
    } else if code == '1' {
        emit_color(out, Color { red: 0, green: 0, blue: 170 });
    } else if code == '2' {
        emit_color(out, Color { red: 0, green: 170, blue: 0 });
    } else if code == '3' {
        emit_color(out, Color { red: 0, green: 170, blue: 170 });
    } else if code == '4' {
        emit_color(out, Color { red: 170, green: 0, blue: 0 });
    } else if code == '5' {
        emit_color(out, Color { red: 170, green: 0, blue: 170 });
    } else if code == '6' {
        emit_color(out, Color { red: 255, green: 170, blue: 0 });
    } else if code == '7' {
        emit_color(out, Color { red: 170, green: 170, blue: 170 });
    } else if code == '8' {
        emit_color(out, Color { red: 85, green: 85, blue: 85 });
    } else if code == '9' {
        emit_color(out, Color { red: 85, green: 85, blue: 255 });
    } else if code == 'a' {
        emit_color(out, Color { red: 85, green: 255, blue: 85 });
    } else if code == 'b' {
        emit_color(out, Color { red: 85, green: 255, blue: 255 });
    } else if code == 'c' {
        emit_color(out, Color { red: 255, green: 85, blue: 85 });
    } else if code == 'd' {
        emit_color(out, Color { red: 255, green: 85, blue: 255 });
    } else if code == 'e' {
        emit_color(out, Color { red: 255, green: 255, blue: 85 });
    } else if code == 'f' {
        emit_color(out, Color { red: 255, green: 255, blue: 255 });
    } else if code == 'k' {
        out.append("\u{1b}[5m");
    } else if code == 'l' {
        out.append("\u{1b}[1m");
    } else if code == 'm' {
        out.append("\u{1b}[9m");
    } else if code == 'n' {
        out.append("\u{1b}[4m");
    } else if code == 'o' {
        out.append("\u{1b}[3m");
    } else if code == 'r' {
        out.append("\u{1b}[0m");
    }
    proof {
        assert(final(out)@ =~= old(out)@ + legacy_code_seq(code));
    }
}

/// The legacy system's output for everything after the first marker: each
/// segment is a control code, then literal text up to the next marker.  The
/// accumulated style is realised by emitting each code's sequence in order;
/// it starts fresh for every text run and never reaches siblings.
pub open spec fn render_legacy(s: Seq<char>, styled: bool) -> Seq<char>
    decreases s.len() via render_legacy_decreases
{
    if s.len() == 0 {
        Seq::<char>::empty()
    } else {
        let code = s[0];
        let rest = s.drop_first();
        let j = find_marker(rest);
        let seg = rest.take(j as int);
        let next = if j < rest.len() {
            rest.skip(j + 1int)
        } else {
            Seq::<char>::empty()
        };
        (if styled {
            legacy_code_seq(code)
        } else {
            Seq::<char>::empty()
        }) + seg + render_legacy(next, styled)
    }
}

#[via_fn]
proof fn render_legacy_decreases(s: Seq<char>, styled: bool) {
    if s.len() > 0 {
        lemma_find_marker(s.drop_first());
    }
}

/// One text run under a structural style: the part before the first marker
/// styled structurally (closed with a reset), then the legacy part, closed
/// with a final reset.  With styling off, only the literal text survives —
/// markers and control codes are always stripped.
pub open spec fn render_text(s: Seq<char>, st: Style, styled: bool) -> Seq<char> {
    let i = find_marker(s);
    let head = s.take(i as int);
    let tail = if i < s.len() {
        s.skip(i + 1int)
    } else {
        Seq::<char>::empty()
    };
    (if styled {
        style_prefix(st)
    } else {
        Seq::<char>::empty()
    }) + head + (if styled {
        sgr_reset()
    } else {
        Seq::<char>::empty()
    }) + render_legacy(tail, styled) + (if styled {
        sgr_reset()
    } else {
        Seq::<char>::empty()
    })
}

/// Renders one text run into `out`: the structural `style` applies to the
/// text before the first marker; legacy codes take over from there, on top
/// of (after) the structural style and without inheriting it.
#[verifier::rlimit(80)]
pub fn apply_styles(text: &str, out: &mut String, style: Style, styled: bool)
    ensures
        final(out)@ == old(out)@ + render_text(text@, style, styled),
{
    proof {
        reveal_strlit("\u{1b}[0m");
        assert(text@.skip(0) =~= text@);
    }
    let n = text.unicode_len();
    let m1 = find_marker_from(text, 0);
    if styled {
        emit_style_prefix(out, style);
    }
    out.append(text.substring_char(0, m1));
    if styled {
        out.append("\u{1b}[0m");
    }
    let ghost reset_part = if styled { sgr_reset() } else { Seq::<char>::empty() };
    let mut p: usize = if m1 < n {
        m1 + 1
    } else {
        n
    };
    proof {
        if m1 == n {
            assert(text@.skip(p as int) =~= Seq::<char>::empty());
        }
        assert(old(out)@ + render_text(text@, style, styled) =~= out@ + render_legacy(
            text@.skip(p as int),
            styled,
        ) + reset_part);
    }
    while p < n
        invariant
            p <= n,
            n == text@.len(),
            reset_part == if styled { sgr_reset() } else { Seq::<char>::empty() },
            old(out)@ + render_text(text@, style, styled) == out@ + render_legacy(
                text@.skip(p as int),
                styled,
            ) + reset_part,
        decreases n - p,
    {
        let ghost s = text@.skip(p as int);
        let code = text.get_char(p);
        let j = find_marker_from(text, p + 1);
        if styled {
            emit_legacy_code(out, code);
        }
        out.append(text.substring_char(p + 1, j));
        proof {
            assert(s[0] == code);
            assert(s.drop_first() =~= text@.skip(p + 1));
            assert(find_marker(s.drop_first()) == j - (p + 1));
            assert(s.drop_first().take(j - (p + 1)) =~= text@.subrange(p + 1, j as int));
        }
        let next_p: usize = if j < n {
            j + 1
        } else {
            n
        };
        proof {
            if j < n {
                assert(s.drop_first().skip((j - (p + 1)) + 1) =~= text@.skip(next_p as int));
            } else {
                assert(text@.skip(next_p as int) =~= Seq::<char>::empty());
            }
            assert(render_legacy(s, styled) =~= (if styled {
                legacy_code_seq(code)
            } else {
                Seq::<char>::empty()
            }) + text@.subrange(p + 1, j as int) + render_legacy(
                text@.skip(next_p as int),
                styled,
            ));
        }
        p = next_p;
    }
    proof {
        assert(text@.skip(n as int) =~= Seq::<char>::empty());
    }
    if styled {
        out.append("\u{1b}[0m");
    }
}

/// The style a component's own text and siblings see: each flag and the
/// color overridden where the object sets the field with the right JSON
/// type; a field of any other type keeps the inherited value.
pub open spec fn spec_child_style(fields: Seq<(String, JsonValue)>, st: Style) -> Style {
    let st1 = match spec_obj_get(fields, "bold"@) {
        Some(JsonValue::Bool(b)) => Style { bold: b, ..st },
        _ => st,
    };
    let st2 = match spec_obj_get(fields, "italic"@) {
        Some(JsonValue::Bool(b)) => Style { italic: b, ..st1 },
        _ => st1,
    };
    let st3 = match spec_obj_get(fields, "underlined"@) {
        Some(JsonValue::Bool(b)) => Style { underline: b, ..st2 },
        _ => st2,
    };
    let st4 = match spec_obj_get(fields, "strikethrough"@) {
        Some(JsonValue::Bool(b)) => Style { strikethrough: b, ..st3 },
        _ => st3,
    };
    let st5 = match spec_obj_get(fields, "obfuscated"@) {
        Some(JsonValue::Bool(b)) => Style { obfuscated: b, ..st4 },
        _ => st4,
    };
    match spec_obj_get(fields, "color"@) {
        Some(JsonValue::Str(c)) => Style { color: spec_parse_color(c@), ..st5 },
        _ => st5,
    }
}

/// Computes the style for a component's own text and siblings.
fn child_style(fields: &Vec<(String, JsonValue)>, st: Style) -> (r: Style)
    ensures
        r == spec_child_style(fields@, st),
{
    let mut r = st;
    match obj_get(fields, "bold") {
        Some(JsonValue::Bool(b)) => {
            r.bold = *b;
        },
        _ => {},
    }
    match obj_get(fields, "italic") {
        Some(JsonValue::Bool(b)) => {
            r.italic = *b;
        },
        _ => {},
    }
    match obj_get(fields, "underlined") {
        Some(JsonValue::Bool(b)) => {
            r.underline = *b;
        },
        _ => {},
    }
    match obj_get(fields, "strikethrough") {
        Some(JsonValue::Bool(b)) => {
            r.strikethrough = *b;
        },
        _ => {},
    }
    match obj_get(fields, "obfuscated") {
        Some(JsonValue::Bool(b)) => {
            r.obfuscated = *b;
        },
        _ => {},
    }
    match obj_get(fields, "color") {
        Some(JsonValue::Str(c)) => {
            r.color = parse_color(c.as_str());
        },
        _ => {},
    }
    r
}

/// The text a component tree renders to under an inherited style.
///
/// Null is nothing; strings, numbers and booleans are one text run; an
/// array renders its elements left to right under the same style; an object
/// derives its child style, renders its own `text`, then its `extra`
/// siblings — a non-array `extra` and fields of unexpected type are ignored.
pub open spec fn render_value(v: JsonValue, st: Style, styled: bool) -> Seq<char>
    decreases json_size(v), 0int via render_value_decreases
{
    match v {
        JsonValue::Null => Seq::<char>::empty(),
        JsonValue::Bool(b) => render_text(if b { "true"@ } else { "false"@ }, st, styled),
        JsonValue::Num(s) => render_text(s@, st, styled),
        JsonValue::Str(s) => render_text(s@, st, styled),
        JsonValue::Arr(items) => render_list(items@, st, styled),
        JsonValue::Obj(fields) => {
            let cst = spec_child_style(fields@, st);
            (match spec_obj_get(fields@, "text"@) {
                Some(JsonValue::Str(s)) => render_text(s@, cst, styled),
                _ => Seq::<char>::empty(),
            }) + (match spec_obj_get(fields@, "extra"@) {
                Some(JsonValue::Arr(items)) => render_list(items@, cst, styled),
                _ => Seq::<char>::empty(),
            })
        },
    }
}

#[via_fn]
proof fn render_value_decreases(v: JsonValue, st: Style, styled: bool) {
    match v {
        JsonValue::Obj(fields) => {
            lemma_obj_get_size(fields@, "extra"@);
        },
        _ => {},
    }
}

/// The concatenated rendering of a list of sibling components, left to
/// right, each under the same inherited style.
pub open spec fn render_list(items: Seq<JsonValue>, st: Style, styled: bool) -> Seq<char>
    decreases json_list_size(items), items.len(),
{
    if items.len() == 0 {
        Seq::<char>::empty()
    } else {
        render_value(items[0], st, styled) + render_list(items.drop_first(), st, styled)
    }
}

/// The rendering still owed by a work stack: entries from the top down.
spec fn stack_render<'a>(stack: Seq<(&'a JsonValue, Style)>, styled: bool) -> Seq<char>
    decreases stack.len(),
{
    if stack.len() == 0 {
        Seq::<char>::empty()
    } else {
        render_value(*stack.last().0, stack.last().1, styled) + stack_render(
            stack.drop_last(),
            styled,
        )
    }
}

/// The summed size of the values still on a work stack.
spec fn stack_size<'a>(stack: Seq<(&'a JsonValue, Style)>) -> nat
    decreases stack.len(),
{
    if stack.len() == 0 {
        0
    } else {
        json_size(*stack.last().0) + stack_size(stack.drop_last())
    }
}

/// Renders a chat component tree to a single string, applying escape
/// sequences when `styled` is set and plain stripped text otherwise.
///
/// The walk uses an explicit work stack instead of recursion, so adversarial
/// nesting depth cannot exhaust the call stack; elements are pushed in
/// reverse so that popping keeps left-to-right order.
pub fn chat_to_str(text: &JsonValue, styled: bool) -> (r: String)
    ensures
        r@ == render_value(*text, Style::spec_plain(), styled),
{
    let mut out = String::new();
    let mut stack: Vec<(&JsonValue, Style)> = Vec::new();
    stack.push((text, Style::plain()));
    proof {
        assert(stack@.drop_last() =~= Seq::<(&JsonValue, Style)>::empty());
        assert(stack_render(Seq::<(&JsonValue, Style)>::empty(), styled)
            == Seq::<char>::empty());
        assert(stack@.last().1 == Style::spec_plain());
        assert(stack_render(stack@, styled) =~= render_value(
            *text,
            Style::spec_plain(),
            styled,
        ));
        assert(out@ + stack_render(stack@, styled) =~= render_value(
            *text,
            Style::spec_plain(),
            styled,
        ));
    }
    while stack.len() != 0
        invariant
            out@ + stack_render(stack@, styled) == render_value(
                *text,
                Style::spec_plain(),
                styled,
            ),
        decreases stack_size(stack@),
    {
        let ghost prev_stack = stack@;
        let (comp, style) = stack.pop().unwrap();
        proof {
            assert(prev_stack.last() == (comp, style));
            assert(prev_stack.drop_last() == stack@);
        }
        match comp {
            JsonValue::Null => {},
            JsonValue::Bool(b) => {
                apply_styles(if *b { "true" } else { "false" }, &mut out, style, styled);
            },
            JsonValue::Num(t) => {
                apply_styles(t.as_str(), &mut out, style, styled);
            },
            JsonValue::Str(t) => {
                apply_styles(t.as_str(), &mut out, style, styled);
            },
            JsonValue::Arr(items) => {
                let ghost base_render = stack_render(stack@, styled);
                let ghost base_size = stack_size(stack@);
                let mut k = items.len();
                proof {
                    assert(items@.skip(k as int) =~= Seq::<JsonValue>::empty());
                }
                while k > 0
                    invariant
                        k <= items@.len(),
                        base_render == stack_render(prev_stack.drop_last(), styled),
                        base_size == stack_size(prev_stack.drop_last()),
                        stack_render(stack@, styled) == render_list(
                            items@.skip(k as int),
                            style,
                            styled,
                        ) + base_render,
                        stack_size(stack@) == json_list_size(items@.skip(k as int)) + base_size,
                    decreases k,
                {
                    k = k - 1;
                    let ghost pre = stack@;
                    stack.push((&items[k], style));
                    proof {
                        assert(stack@.last() == (&items@[k as int], style));
                        assert(stack@.drop_last() =~= pre);
                        assert(items@.skip(k as int)[0] == items@[k as int]);
                        assert(items@.skip(k as int).drop_first() =~= items@.skip(k + 1));
                    }
                }
                proof {
                    assert(items@.skip(0) =~= items@);
                }
            },
            JsonValue::Obj(fields) => {
                let cst = child_style(fields, style);
                match obj_get(fields, "text") {
                    Some(v) => {
                        match v {
                            JsonValue::Str(s) => {
                                apply_styles(s.as_str(), &mut out, cst, styled);
                            },
                            _ => {},
                        }
                    },
                    None => {},
                }
                match obj_get(fields, "extra") {
                    Some(v) => {
                        match v {
                            JsonValue::Arr(_) => {
                                proof {
                                    lemma_obj_get_size(fields@, "extra"@);
                                }
                                let ghost pre = stack@;
                                stack.push((v, cst));
                                proof {
                                    assert(stack@.drop_last() =~= pre);
                                }
                            },
                            _ => {},
                        }
                    },
                    None => {},
                }
            },
        }
    }
    proof {
        assert(out@ =~= render_value(*text, Style::spec_plain(), styled));
    }
    out
}

} // verus!
