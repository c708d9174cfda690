//! The status document: the fields a server's JSON status response carries,
//! their extraction from a parsed JSON value, and the plain-text report the
//! tool prints for them.

use vstd::prelude::*;

use crate::json::JsonValue;
use crate::json::json_of;
use crate::json::obj_get;
use crate::json::parse_json;
use crate::json::spec_obj_get;
use crate::json::str_eq;
use crate::numtext::dec_digits;
use crate::numtext::dec_int;
use crate::numtext::fmt_i64;
use crate::numtext::fmt_u64;
use crate::numtext::spec_parse_i32;
use crate::numtext::parse_i32;
use crate::wire::ProtocolError;

verus! {

/// The version block of a status response.
pub struct ResponseVersion {
    pub name: String,
    pub protocol: i32,
}

/// The player counts of a status response.
pub struct ResponsePlayers {
    pub max: i32,
    pub online: i32,
}

/// A decoded status response: version, player counts, the chat-component
/// description tree, and the optional favicon and chat flags.
pub struct Response {
    pub version: ResponseVersion,
    pub players: ResponsePlayers,
    pub description: JsonValue,
    pub favicon: Option<String>,
    pub enforces_secure_chat: Option<bool>,
    pub previews_chat: Option<bool>,
}

/// A 32-bit field read from an object: present, a number, and in range.
pub open spec fn spec_field_i32(fields: Seq<(String, JsonValue)>, key: Seq<char>) -> Option<
    i32,
> {
    match spec_obj_get(fields, key) {
        Some(JsonValue::Num(t)) => spec_parse_i32(t@),
        _ => None,
    }
}

/// An optional string field: absent or null is `None`; any other non-string
/// value is a schema error.
pub open spec fn spec_field_opt_string(
    fields: Seq<(String, JsonValue)>,
    key: Seq<char>,
) -> Result<Option<String>, ProtocolError> {
    match spec_obj_get(fields, key) {
        None => Ok(None),
        Some(JsonValue::Null) => Ok(None),
        Some(JsonValue::Str(s)) => Ok(Some(s)),
        Some(_) => Err(ProtocolError::Malformed),
    }
}

/// An optional boolean field: absent or null is `None`; any other
/// non-boolean value is a schema error.
pub open spec fn spec_field_opt_bool(fields: Seq<(String, JsonValue)>, key: Seq<char>) -> Result<
    Option<bool>,
    ProtocolError,
> {
    match spec_obj_get(fields, key) {
        None => Ok(None),
        Some(JsonValue::Null) => Ok(None),
        Some(JsonValue::Bool(b)) => Ok(Some(b)),
        Some(_) => Err(ProtocolError::Malformed),
    }
}

/// The status document a JSON value describes, or `Malformed` where the
/// value does not fit the schema: `version.name` a string,
/// `version.protocol` and the two player counts 32-bit numbers, a
/// `description` of any shape, and optional favicon and chat-flag fields.
pub open spec fn spec_status_of(v: JsonValue) -> Result<Response, ProtocolError> {
    match v {
        JsonValue::Obj(fields) => match spec_obj_get(fields@, "version"@) {
            Some(JsonValue::Obj(vf)) => match spec_obj_get(vf@, "name"@) {
                Some(JsonValue::Str(name)) => match spec_field_i32(vf@, "protocol"@) {
                    Some(protocol) => match spec_obj_get(fields@, "players"@) {
                        Some(JsonValue::Obj(pf)) => match spec_field_i32(pf@, "max"@) {
                            Some(max) => match spec_field_i32(pf@, "online"@) {
                                Some(online) => match spec_field_opt_string(
                                    fields@,
                                    "favicon"@,
                                ) {
                                    Ok(favicon) => match spec_field_opt_bool(
                                        fields@,
                                        "enforcesSecureChat"@,
                                    ) {
                                        Ok(enforces) => match spec_field_opt_bool(
                                            fields@,
                                            "previewsChat"@,
                                        ) {
                                            Ok(previews) => match spec_obj_get(
                                                fields@,
                                                "description"@,
                                            ) {
                                                Some(description) => Ok(
                                                    Response {
                                                        version: ResponseVersion {
                                                            name,
                                                            protocol,
                                                        },
                                                        players: ResponsePlayers { max, online },
                                                        description,
                                                        favicon,
                                                        enforces_secure_chat: enforces,
                                                        previews_chat: previews,
                                                    },
                                                ),
                                                None => Err(ProtocolError::Malformed),
                                            },
                                            Err(e) => Err(e),
                                        },
                                        Err(e) => Err(e),
                                    },
                                    Err(e) => Err(e),
                                },
                                None => Err(ProtocolError::Malformed),
                            },
                            None => Err(ProtocolError::Malformed),
                        },
                        _ => Err(ProtocolError::Malformed),
                    },
                    None => Err(ProtocolError::Malformed),
                },
                _ => Err(ProtocolError::Malformed),
            },
            _ => Err(ProtocolError::Malformed),
        },
        _ => Err(ProtocolError::Malformed),
    }
}

/// Reads a 32-bit numeric field.
fn field_i32(fields: &Vec<(String, JsonValue)>, key: &str) -> (r: Option<i32>)
    ensures
        r == spec_field_i32(fields@, key@),
{
    match obj_get(fields, key) {
        Some(JsonValue::Num(t)) => parse_i32(t.as_str()),
        _ => None,
    }
}

/// Reads an optional string field.
fn field_opt_string(fields: &Vec<(String, JsonValue)>, key: &str) -> (r: Result<
    Option<String>,
    ProtocolError,
>)
    ensures
        r == spec_field_opt_string(fields@, key@),
{
    match obj_get(fields, key) {
        None => Ok(None),
        Some(JsonValue::Null) => Ok(None),
        Some(JsonValue::Str(s)) => Ok(Some(s.clone())),
        Some(_) => Err(ProtocolError::Malformed),
    }
}

/// Reads an optional boolean field.
fn field_opt_bool(fields: &Vec<(String, JsonValue)>, key: &str) -> (r: Result<
    Option<bool>,
    ProtocolError,
>)
    ensures
        r == spec_field_opt_bool(fields@, key@),
{
    match obj_get(fields, key) {
        None => Ok(None),
        Some(JsonValue::Null) => Ok(None),
        Some(JsonValue::Bool(b)) => Ok(Some(*b)),
        Some(_) => Err(ProtocolError::Malformed),
    }
}

/// Removes the first entry under `key` and hands its value out.
fn obj_take(fields: &mut Vec<(String, JsonValue)>, key: &str) -> (r: Option<JsonValue>)
    ensures
        match r {
            Some(v) => spec_obj_get(old(fields)@, key@) == Some(v),
            None => spec_obj_get(old(fields)@, key@) is None,
        },
{
    let n = fields.len();
    proof {
        assert(fields@.skip(0) =~= fields@);
    }
    let mut i: usize = 0;
    while i < n
        invariant
            i <= n,
            fields == old(fields),
            n == fields@.len(),
            spec_obj_get(fields@.skip(i as int), key@) == spec_obj_get(fields@, key@),
        decreases n - i,
    {
        proof {
            assert(fields@.skip(i as int)[0] == fields@[i as int]);
            assert(fields@.skip(i as int).drop_first() =~= fields@.skip(i + 1));
        }
        if str_eq(fields[i].0.as_str(), key) {
            let pair = fields.remove(i);
            return Some(pair.1);
        }
        i = i + 1;
    }
    None
}

/// Builds the status document from a parsed JSON value, as
/// [`spec_status_of`] says; any shape the schema does not allow is
/// `Malformed`.
pub fn status_of_value(v: JsonValue) -> (res: Result<Response, ProtocolError>)
    ensures
        res == spec_status_of(v),
{
    let mut fields = match v {
        JsonValue::Obj(fields) => fields,
        _ => {
            return Err(ProtocolError::Malformed);
        },
    };
    let (name, protocol) = match obj_get(&fields, "version") {
        Some(JsonValue::Obj(vf)) => {
            let name = match obj_get(vf, "name") {
                Some(JsonValue::Str(name)) => name.clone(),
                _ => {
                    return Err(ProtocolError::Malformed);
                },
            };
            let protocol = match field_i32(vf, "protocol") {
                Some(protocol) => protocol,
                None => {
                    return Err(ProtocolError::Malformed);
                },
            };
            (name, protocol)
        },
        _ => {
            return Err(ProtocolError::Malformed);
        },
    };
    let (max, online) = match obj_get(&fields, "players") {
        Some(JsonValue::Obj(pf)) => {
            let max = match field_i32(pf, "max") {
                Some(max) => max,
                None => {
                    return Err(ProtocolError::Malformed);
                },
            };
            let online = match field_i32(pf, "online") {
                Some(online) => online,
                None => {
                    return Err(ProtocolError::Malformed);
                },
            };
            (max, online)
        },
        _ => {
            return Err(ProtocolError::Malformed);
        },
    };
    let favicon = match field_opt_string(&fields, "favicon") {
        Ok(favicon) => favicon,
        Err(e) => {
            return Err(e);
        },
    };
    let enforces_secure_chat = match field_opt_bool(&fields, "enforcesSecureChat") {
        Ok(b) => b,
        Err(e) => {
            return Err(e);
        },
    };
    let previews_chat = match field_opt_bool(&fields, "previewsChat") {
        Ok(b) => b,
        Err(e) => {
            return Err(e);
        },
    };
    let description = match obj_take(&mut fields, "description") {
        Some(description) => description,
        None => {
            return Err(ProtocolError::Malformed);
        },
    };
    Ok(
        Response {
            version: ResponseVersion { name, protocol },
            players: ResponsePlayers { max, online },
            description,
            favicon,
            enforces_secure_chat,
            previews_chat,
        },
    )
}

/// Parses the JSON status document and extracts the status fields; a
/// malformed document or one that does not fit the schema is `Malformed`.
pub fn parse_status_response(json: &str) -> (res: Result<Response, ProtocolError>)
    ensures
        match json_of(json@) {
            Some(v) => res == spec_status_of(v),
            None => res == Err::<Response, ProtocolError>(ProtocolError::Malformed),
        },
{
    match parse_json(json) {
        Some(v) => status_of_value(v),
        None => Err(ProtocolError::Malformed),
    }
}

/// A run of spaces.
pub open spec fn spaces(n: nat) -> Seq<char>
    decreases n,
{
    if n == 0 {
        Seq::<char>::empty()
    } else {
        spaces((n - 1) as nat) + seq![' ']
    }
}

/// A label padded with spaces to 24 columns.
pub open spec fn pad24(label: Seq<char>) -> Seq<char> {
    if label.len() < 24 {
        label + spaces((24 - label.len()) as nat)
    } else {
        label
    }
}

/// One report line: the padded label, a space, the value, a newline.
pub open spec fn report_line(label: Seq<char>, value: Seq<char>) -> Seq<char> {
    pad24(label) + seq![' '] + value + seq!['\n']
}

/// The yes/no rendering of an optional flag, absent meaning no.
pub open spec fn yes_no(flag: Option<bool>) -> Seq<char> {
    if flag == Some(true) {
        "Yes"@
    } else {
        "No"@
    }
}

/// The favicon column: whether any base64 data is present.
pub open spec fn favicon_label(favicon: Option<String>) -> Seq<char> {
    match favicon {
        Some(f) => if f@.len() == 0 {
            "(No data available)"@
        } else {
            "(Base64 data)"@
        },
        None => "(No data available)"@,
    }
}

/// The whole human-readable report for a status response.
pub open spec fn spec_status_report(
    r: Response,
    description: Seq<char>,
    latency_ms: u64,
) -> Seq<char> {
    description + seq!['\n'] + report_line("Server version"@, r.version.name@) + report_line(
        "Protocol"@,
        dec_int(r.version.protocol as int),
    ) + report_line(
        "Players"@,
        dec_int(r.players.online as int) + seq!['/'] + dec_int(r.players.max as int),
    ) + report_line("Favicon"@, favicon_label(r.favicon)) + report_line(
        "Enforces secure chat"@,
        yes_no(r.enforces_secure_chat),
    ) + report_line("Previews chat"@, yes_no(r.previews_chat)) + report_line(
        "Server latency"@,
        dec_digits(latency_ms as nat) + " ms"@,
    )
}

/// Appends one padded report line.
fn append_line(out: &mut String, label: &str, value: &str)
    ensures
        final(out)@ == old(out)@ + report_line(label@, value@),
{
    proof {
        reveal_strlit(" ");
        reveal_strlit("\n");
    }
    out.append(label);
    let mut l: usize = label.unicode_len();
    let ghost label_len = label@.len();
    while l < 24
        invariant
            label_len == label@.len(),
            label_len < 24 ==> label_len <= l <= 24 && out@ == old(out)@ + label@ + spaces(
                (l - label_len) as nat,
            ),
            label_len >= 24 ==> l == label_len && out@ == old(out)@ + label@,
        decreases 24 - l,
    {
        out.append(" ");
        l = l + 1;
        proof {
            reveal_strlit(" ");
            assert(out@ =~= old(out)@ + label@ + spaces((l - label_len) as nat));
        }
    }
    proof {
        assert(out@ =~= old(out)@ + pad24(label@));
    }
    out.append(" ");
    out.append(value);
    out.append("\n");
    proof {
        assert(final(out)@ =~= old(out)@ + report_line(label@, value@));
    }
}

/// Builds the report the tool prints for a decoded status: the rendered
/// description, then one padded line for each field and the latency.
pub fn status_report(r: &Response, description: &str, latency_ms: u64) -> (out: String)
    ensures
        out@ == spec_status_report(*r, description@, latency_ms),
{
    proof {
        reveal_strlit("\n");
        reveal_strlit("/");
        reveal_strlit(" ms");
        reveal_strlit("Yes");
        reveal_strlit("No");
        reveal_strlit("(No data available)");
        reveal_strlit("(Base64 data)");
    }
    let mut out = String::new();
    out.append(description);
    out.append("\n");
    append_line(&mut out, "Server version", r.version.name.as_str());
    append_line(&mut out, "Protocol", fmt_i64(r.version.protocol as i64).as_str());
    let mut players = fmt_i64(r.players.online as i64);
    players.append("/");
    players.append(fmt_i64(r.players.max as i64).as_str());
    append_line(&mut out, "Players", players.as_str());
    let favicon_text: &str = match &r.favicon {
        Some(f) => {
            if f.as_str().unicode_len() == 0 {
                "(No data available)"
            } else {
                "(Base64 data)"
            }
        },
        None => "(No data available)",
    };
    append_line(&mut out, "Favicon", favicon_text);
    let enforces: &str = match r.enforces_secure_chat {
        Some(true) => "Yes",
        _ => "No",
    };
    append_line(&mut out, "Enforces secure chat", enforces);
    let previews: &str = match r.previews_chat {
        Some(true) => "Yes",
        _ => "No",
    };
    append_line(&mut out, "Previews chat", previews);
    let mut latency = fmt_u64(latency_ms);
    latency.append(" ms");
    append_line(&mut out, "Server latency", latency.as_str());
    proof {
        assert(out@ =~= spec_status_report(*r, description@, latency_ms));
    }
    out
}

/// How a favicon field is to be shown: absent or empty, an embedded PNG, or
/// raw data in an unknown format.
#[derive(Clone, Copy, Debug, PartialEq, Eq, Structural)]
pub enum FaviconKind {
    NoData,
    Png,
    UnknownFormat,
}

/// The length of the `data:image/png;base64,` prefix.
pub open spec fn png_prefix_len() -> nat {
    22
}

/// Classifying a favicon field: absent or empty is no data; a string with
/// the PNG data-URL prefix carries base64 image data; anything else is an
/// unknown format.
pub open spec fn spec_classify_favicon(favicon: Option<String>) -> FaviconKind {
    match favicon {
        None => FaviconKind::NoData,
        Some(f) => if f@.len() == 0 {
            FaviconKind::NoData
        } else if f@.len() >= png_prefix_len() && f@.take(png_prefix_len() as int)
            == "data:image/png;base64,"@ {
            FaviconKind::Png
        } else {
            FaviconKind::UnknownFormat
        },
    }
}

/// Classifies the favicon field of a response.
pub fn classify_favicon(favicon: &Option<String>) -> (r: FaviconKind)
    ensures
        r == spec_classify_favicon(*favicon),
{
    proof {
        reveal_strlit("data:image/png;base64,");
    }
    match favicon {
        None => FaviconKind::NoData,
        Some(f) => {
            let n = f.as_str().unicode_len();
            if n == 0 {
                FaviconKind::NoData
            } else if n >= 22 && str_eq(f.as_str().substring_char(0, 22), "data:image/png;base64,") {
                FaviconKind::Png
            } else {
                FaviconKind::UnknownFormat
            }
        },
    }
}

/// The base64 payload after the PNG data-URL prefix.
pub fn favicon_payload(favicon: &str) -> (r: String)
    requires
        favicon@.len() >= png_prefix_len(),
    ensures
        r@ == favicon@.skip(png_prefix_len() as int),
{
    String::from_str(favicon.substring_char(22, favicon.unicode_len()))
}

} // verus!
