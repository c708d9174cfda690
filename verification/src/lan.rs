//! The LAN announcement format: a trimmed UTF-8 message shaped
//! `[MOTD]<motd>[/MOTD][AD]<port>[/AD]`, with exactly one inner delimiter;
//! the MOTD part feeds the chat renderer, the port part is a decimal string.

use vstd::prelude::*;

verus! {

/// Whether `c` has the Unicode white-space property, the set `str::trim`
/// removes.
pub open spec fn is_space(c: char) -> bool {
    (9 <= c as u32 <= 13) || c as u32 == 32 || c as u32 == 0x85 || c as u32 == 0xa0
        || c as u32 == 0x1680 || (0x2000 <= c as u32 <= 0x200a) || c as u32 == 0x2028
        || c as u32 == 0x2029 || c as u32 == 0x202f || c as u32 == 0x205f || c as u32 == 0x3000
}

/// How many white-space characters `s` starts with.
pub open spec fn leading_spaces(s: Seq<char>) -> nat
    decreases s.len(),
{
    if s.len() == 0 {
        0
    } else if is_space(s[0]) {
        (1 + leading_spaces(s.drop_first())) as nat
    } else {
        0
    }
}

/// How many white-space characters `s` ends with.
pub open spec fn trailing_spaces(s: Seq<char>) -> nat
    decreases s.len(),
{
    if s.len() == 0 {
        0
    } else if is_space(s.last()) {
        (1 + trailing_spaces(s.drop_last())) as nat
    } else {
        0
    }
}

/// `s` with white space removed from both ends.
pub open spec fn trimmed(s: Seq<char>) -> Seq<char> {
    if leading_spaces(s) == s.len() {
        Seq::<char>::empty()
    } else {
        s.subrange(leading_spaces(s) as int, s.len() - trailing_spaces(s))
    }
}

/// A scan that stops at the first non-space is what [`leading_spaces`]
/// counts.
pub proof fn lemma_leading_spaces_at(s: Seq<char>, i: int)
    requires
        0 <= i <= s.len(),
        forall|j: int| 0 <= j < i ==> is_space(s[j]),
        i < s.len() ==> !is_space(s[i]),
    ensures
        leading_spaces(s) == i,
    decreases s.len(),
{
    if s.len() == 0 {
    } else if !is_space(s[0]) {
        assert(i == 0);
    } else {
        assert(i >= 1);
        assert forall|j: int| 0 <= j < i - 1 implies is_space(s.drop_first()[j]) by {
            assert(s.drop_first()[j] == s[j + 1]);
        }
        lemma_leading_spaces_at(s.drop_first(), i - 1);
    }
}

/// A backwards scan that stops at the last non-space is what
/// [`trailing_spaces`] counts.
pub proof fn lemma_trailing_spaces_at(s: Seq<char>, i: int)
    requires
        0 <= i <= s.len(),
        forall|j: int| s.len() - i <= j < s.len() ==> is_space(s[j]),
        i < s.len() ==> !is_space(s[s.len() - i - 1]),
    ensures
        trailing_spaces(s) == i,
    decreases s.len(),
{
    if s.len() == 0 {
    } else if !is_space(s.last()) {
        assert(i == 0);
    } else {
        assert(i >= 1);
        assert forall|j: int| s.drop_last().len() - (i - 1) <= j < s.drop_last().len()
            implies is_space(s.drop_last()[j]) by {
            assert(s.drop_last()[j] == s[j]);
        }
        if i - 1 < s.drop_last().len() {
            assert(s.drop_last()[s.drop_last().len() - (i - 1) - 1] == s[s.len() - i - 1]);
        }
        lemma_trailing_spaces_at(s.drop_last(), i - 1);
    }
}

/// Whether `pat` occurs in `s` at position `i`.
pub open spec fn match_at(s: Seq<char>, pat: Seq<char>, i: int) -> bool {
    0 <= i && i + pat.len() <= s.len() && s.subrange(i, i + pat.len()) == pat
}

/// The first position where `pat` occurs in `s`, or -1.
pub open spec fn find_sub(s: Seq<char>, pat: Seq<char>) -> int
    decreases s.len(),
{
    if pat.len() > s.len() {
        -1
    } else if s.subrange(0, pat.len() as int) == pat {
        0
    } else if s.len() == 0 {
        0
    } else {
        let r = find_sub(s.drop_first(), pat);
        if r < 0 {
            -1
        } else {
            1 + r
        }
    }
}

/// A scan that stops at the first occurrence of `pat` is what
/// [`find_sub`] returns; a scan that finds none means there is none.
pub proof fn lemma_find_sub_at(s: Seq<char>, pat: Seq<char>, i: int)
    requires
        pat.len() > 0,
        0 <= i <= s.len() - pat.len() + 1,
        forall|k: int| 0 <= k < i ==> !match_at(s, pat, k),
        i <= s.len() - pat.len() ==> match_at(s, pat, i),
    ensures
        i <= s.len() - pat.len() ==> find_sub(s, pat) == i,
        i > s.len() - pat.len() ==> find_sub(s, pat) == -1,
    decreases s.len(),
{
    if pat.len() > s.len() {
    } else if s.subrange(0, pat.len() as int) == pat {
        assert(match_at(s, pat, 0));
        assert(i == 0);
    } else {
        assert(!match_at(s, pat, 0));
        assert(i >= 1 || i > s.len() - pat.len());
        let t = s.drop_first();
        assert forall|k: int| 0 <= k < i - 1 implies !match_at(t, pat, k) by {
            if match_at(t, pat, k) {
                assert(t.subrange(k, k + pat.len()) =~= s.subrange(k + 1, k + 1 + pat.len()));
                assert(match_at(s, pat, k + 1));
            }
        }
        if 1 <= i && i <= s.len() - pat.len() {
            assert(s.subrange(i, i + pat.len()) =~= t.subrange(i - 1, i - 1 + pat.len()));
            assert(match_at(t, pat, i - 1));
            lemma_find_sub_at(t, pat, i - 1);
        } else {
            assert(i == s.len() - pat.len() + 1);
            lemma_find_sub_at(t, pat, i - 1);
        }
    }
}

/// Parsing a LAN announcement: after trimming, the message must read
/// `[MOTD]`, the MOTD text, exactly one `[/MOTD][AD]`, the port text, and
/// `[/AD]`; anything else is not an announcement.
pub open spec fn spec_parse_lan(message: Seq<char>) -> Option<(Seq<char>, Seq<char>)> {
    let t = trimmed(message);
    if t.len() >= 11 && t.subrange(0, 6) == "[MOTD]"@ && t.subrange(t.len() - 5, t.len() as int)
        == "[/AD]"@ {
        let mid = t.subrange(6, t.len() - 5);
        let i = find_sub(mid, "[/MOTD][AD]"@);
        if i >= 0 {
            let motd = mid.subrange(0, i);
            let port = mid.subrange(i + 11, mid.len() as int);
            if find_sub(port, "[/MOTD][AD]"@) < 0 {
                Some((motd, port))
            } else {
                None
            }
        } else {
            None
        }
    } else {
        None
    }
}

/// Whether `c` is white space, as `str::trim` sees it.
fn is_space_char(c: char) -> (r: bool)
    ensures
        r == is_space(c),
{
    let u = c as u32;
    (9 <= u && u <= 13) || u == 32 || u == 0x85 || u == 0xa0 || u == 0x1680 || (0x2000 <= u && u
        <= 0x200a) || u == 0x2028 || u == 0x2029 || u == 0x202f || u == 0x205f || u == 0x3000
}

/// Finds the first occurrence of `pat` in `s`.
fn find_sub_str(s: &str, pat: &str) -> (r: Option<usize>)
    requires
        pat@.len() > 0,
    ensures
        match r {
            Some(i) => find_sub(s@, pat@) == i as int && i + pat@.len() <= s@.len(),
            None => find_sub(s@, pat@) == -1,
        },
{
    let n = s.unicode_len();
    let m = pat.unicode_len();
    if m > n {
        return None;
    }
    let mut i: usize = 0;
    while i <= n - m
        invariant_except_break
            0 <= i <= n - m + 1,
            0 < m <= n,
            n == s@.len(),
            m == pat@.len(),
            forall|k: int| 0 <= k < i ==> !match_at(s@, pat@, k),
        ensures
            0 <= i <= n - m + 1,
            0 < m <= n,
            n == s@.len(),
            m == pat@.len(),
            forall|k: int| 0 <= k < i ==> !match_at(s@, pat@, k),
            i == n - m + 1,
        decreases n + 1 - m - i,
    {
        let mut j: usize = 0;
        let mut hit: bool = true;
        while j < m
            invariant_except_break
                0 <= j <= m,
                i + m <= n,
                n == s@.len(),
                m == pat@.len(),
                hit,
                forall|l: int| 0 <= l < j ==> s@[i + l] == pat@[l],
            ensures
                0 <= j <= m,
                hit ==> forall|l: int| 0 <= l < j ==> s@[i + l] == pat@[l],
                hit ==> j == m,
                !hit ==> j < m && s@[i + j] != pat@[j as int],
            decreases m - j,
        {
            if s.get_char(i + j) != pat.get_char(j) {
                hit = false;
                break;
            }
            j = j + 1;
        }
        if hit {
            proof {
                assert(s@.subrange(i as int, i + m) =~= pat@);
                assert(match_at(s@, pat@, i as int));
                lemma_find_sub_at(s@, pat@, i as int);
            }
            return Some(i);
        }
        proof {
            assert(s@.subrange(i as int, i + m)[j as int] == s@[i + j]);
            assert(!match_at(s@, pat@, i as int));
        }
        i = i + 1;
    }
    proof {
        assert(i as int == n - m + 1);
        lemma_find_sub_at(s@, pat@, i as int);
        assert(find_sub(s@, pat@) == -1);
    }
    None
}

/// Parses a LAN announcement into its MOTD and port strings, as
/// [`spec_parse_lan`] says; a message of any other shape yields `None`.
pub fn parse_lan_announcement(message: &str) -> (r: Option<(String, String)>)
    ensures
        match r {
            Some(pair) => spec_parse_lan(message@) == Some((pair.0@, pair.1@)),
            None => spec_parse_lan(message@) is None,
        },
{
    proof {
        reveal_strlit("[MOTD]");
        reveal_strlit("[/AD]");
        reveal_strlit("[/MOTD][AD]");
    }
    let n = message.unicode_len();
    let mut lead: usize = 0;
    while lead < n
        invariant_except_break
            0 <= lead <= n,
            n == message@.len(),
            forall|j: int| 0 <= j < lead ==> is_space(message@[j]),
        ensures
            0 <= lead <= n,
            n == message@.len(),
            forall|j: int| 0 <= j < lead ==> is_space(message@[j]),
            lead < n ==> !is_space(message@[lead as int]),
        decreases n - lead,
    {
        if !is_space_char(message.get_char(lead)) {
            break;
        }
        lead = lead + 1;
    }
    proof {
        lemma_leading_spaces_at(message@, lead as int);
    }
    if lead == n {
        return None;
    }
    let mut trail: usize = 0;
    while trail < n - lead
        invariant_except_break
            0 <= trail <= n - lead - 1,
            lead < n,
            n == message@.len(),
            !is_space(message@[lead as int]),
            forall|j: int| n - trail <= j < n ==> is_space(message@[j]),
        ensures
            0 <= trail <= n - lead - 1,
            lead < n,
            n == message@.len(),
            forall|j: int| n - trail <= j < n ==> is_space(message@[j]),
            !is_space(message@[n - trail - 1]),
        decreases n - lead - trail,
    {
        if !is_space_char(message.get_char(n - trail - 1)) {
            break;
        }
        trail = trail + 1;
    }
    proof {
        assert(!is_space(message@[n - trail - 1]));
        lemma_trailing_spaces_at(message@, trail as int);
    }
    let t = message.substring_char(lead, n - trail);
    proof {
        assert(t@ =~= trimmed(message@));
    }
    let tn = t.unicode_len();
    if tn < 11 {
        return None;
    }
    if !crate::json::str_eq(t.substring_char(0, 6), "[MOTD]") {
        return None;
    }
    if !crate::json::str_eq(t.substring_char(tn - 5, tn), "[/AD]") {
        return None;
    }
    let mid = t.substring_char(6, tn - 5);
    let i = match find_sub_str(mid, "[/MOTD][AD]") {
        Some(i) => i,
        None => {
            return None;
        },
    };
    let motd = mid.substring_char(0, i);
    let port = mid.substring_char(i + 11, mid.unicode_len());
    match find_sub_str(port, "[/MOTD][AD]") {
        Some(_) => None,
        None => Some((String::from_str(motd), String::from_str(port))),
    }
}

} // verus!
