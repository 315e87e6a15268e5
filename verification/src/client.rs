//! What the transport client sends and how its responses are read: request
//! paths, query parameters and JSON bodies, and the rules that turn a raw
//! response body into a result or an API error.

use vstd::prelude::*;

use crate::error::Error;
use crate::json::{Json, JsonValue};
use crate::table::{get_field, j_get, row_fields};
use crate::text::{append_str, bool_to_string, chars_to_string, dec_rep_signed, i32_to_string};

verus! {

/// How a character appears in an encoded path segment: slash, colon and
/// space get their percent escape, everything else stands as is.
pub open spec fn enc_char(c: char) -> Seq<char> {
    if c == '/' {
        "%2F"@
    } else if c == ':' {
        "%3A"@
    } else if c == ' ' {
        "%20"@
    } else {
        seq![c]
    }
}

/// `s` with slash, colon and space percent-encoded.
pub open spec fn url_encoded(s: Seq<char>) -> Seq<char>
    decreases s.len(),
{
    if s.len() == 0 {
        Seq::empty()
    } else {
        url_encoded(s.drop_last()) + enc_char(s.last())
    }
}

/// Percent-encodes the characters that may not stand in a path segment.
pub fn url_encode(s: &str) -> (r: String)
    ensures
        r@ == url_encoded(s@),
{
    let cs = crate::text::str_to_chars(s);
    let mut out: Vec<char> = Vec::new();
    let mut i: usize = 0;
    while i < cs.len()
        invariant
            0 <= i <= cs.len(),
            cs@ == s@,
            out@ == url_encoded(s@.take(i as int)),
        decreases cs.len() - i,
    {
        let c = cs[i];
        if c == '/' {
            append_str(&mut out, "%2F");
        } else if c == ':' {
            append_str(&mut out, "%3A");
        } else if c == ' ' {
            append_str(&mut out, "%20");
        } else {
            out.push(c);
        }
        i += 1;
        proof {
            assert(s@.take(i as int).drop_last() =~= s@.take(i - 1));
            assert(s@.take(i as int).last() == s@[i - 1]);
            assert(out@ =~= url_encoded(s@.take(i as int)));
        }
    }
    proof {
        assert(s@.take(s@.len() as int) =~= s@);
    }
    chars_to_string(&out)
}

/// The headers every request carries: the JSON content type, and the API
/// key when one is configured.
pub fn build_headers(api_key: &Option<String>) -> (r: Vec<(String, String)>)
    ensures
        r@.len() == (if api_key is Some {
            2int
        } else {
            1int
        }),
        r@[0].0@ == "Content-Type"@,
        r@[0].1@ == "application/json"@,
        api_key matches Some(k) ==> r@[1].0@ == "X-API-Key"@ && r@[1].1@ == k@,
{
    let mut r: Vec<(String, String)> = Vec::new();
    r.push(("Content-Type".to_owned(), "application/json".to_owned()));
    match api_key {
        Some(k) => {
            r.push(("X-API-Key".to_owned(), k.clone()));
        },
        None => {},
    }
    r
}

/// The value under `key` when `v` is an object that has it.
pub fn get_value<'a>(v: &'a JsonValue, key: &str) -> (r: Option<&'a JsonValue>)
    ensures
        match r {
            Some(x) => j_get(v.view(), key@) == Some(x.view()),
            None => j_get(v.view(), key@) is None,
        },
{
    match v {
        JsonValue::Object(fields) => {
            proof {
                assert(row_fields(v.view()) == crate::json::view_fields(fields@));
            }
            get_field(fields, key)
        },
        _ => {
            proof {
                assert(row_fields(v.view()) =~= Seq::<(Seq<char>, Json)>::empty());
            }
            None
        },
    }
}

/// The boolean under `key`, or false when absent or of another type.
pub fn bool_field_or_false(v: &JsonValue, key: &str) -> (r: bool)
    ensures
        r == (j_get(v.view(), key@) matches Some(Json::Bool(b)) && b),
{
    match get_value(v, key) {
        Some(x) => match x {
            JsonValue::Bool(b) => *b,
            _ => false,
        },
        None => false,
    }
}

/// The string under `key`, if the object has it as a string.
pub open spec fn str_field(j: Json, key: Seq<char>) -> Option<Seq<char>> {
    match j_get(j, key) {
        Some(Json::Str(s)) => Some(s),
        _ => None,
    }
}

fn get_str_field(v: &JsonValue, key: &str) -> (r: Option<String>)
    ensures
        match r {
            Some(s) => str_field(v.view(), key@) == Some(s@),
            None => str_field(v.view(), key@) is None,
        },
{
    match get_value(v, key) {
        Some(x) => match x {
            JsonValue::Str(s) => Some(s.clone()),
            _ => None,
        },
        None => None,
    }
}

/// The message an error response carries: the `error.message` string, else
/// the `detail` string, else `HTTP error ` and the status line.
pub open spec fn api_error_text(j: Json, status_text: Seq<char>) -> Seq<char> {
    let em = match j_get(j, "error"@) {
        Some(e) => str_field(e, "message"@),
        None => None,
    };
    match em {
        Some(s) => s,
        None => match str_field(j, "detail"@) {
            Some(s) => s,
            None => "HTTP error "@ + status_text,
        },
    }
}

pub open spec fn error_code_of(e: Json) -> Seq<char> {
    match str_field(e, "code"@) {
        Some(s) => s,
        None => "UNKNOWN"@,
    }
}

pub open spec fn error_message_of(e: Json) -> Seq<char> {
    match str_field(e, "message"@) {
        Some(s) => s,
        None => "Unknown error"@,
    }
}

/// What a response resolves to. A status without content resolves to null.
/// A non-success status is an API error carrying the body's message. A
/// success whose body holds a non-null `error` is an API error carrying
/// `[<code>] <message>`. Any other success resolves to the body's `result`
/// field, or to the whole body when there is none.
pub open spec fn spec_interpret(status: int, status_text: Seq<char>, j: Json) -> Result<
    Json,
    Seq<char>,
> {
    if status == 204 || status == 202 {
        Ok(Json::Null)
    } else if !(200 <= status < 300) {
        Err(api_error_text(j, status_text))
    } else {
        match j_get(j, "error"@) {
            Some(e) => if e is Null {
                match j_get(j, "result"@) {
                    Some(r) => Ok(r),
                    None => Ok(j),
                }
            } else {
                Err(seq!['['] + error_code_of(e) + seq![']', ' '] + error_message_of(e))
            },
            None => match j_get(j, "result"@) {
                Some(r) => Ok(r),
                None => Ok(j),
            },
        }
    }
}

/// Reads a response: the HTTP status, its display text, and the JSON body,
/// resolved to a result value or an API error.
pub fn interpret_response(status: u16, status_text: &str, body: &JsonValue) -> (r: Result<
    JsonValue,
    Error,
>)
    ensures
        match r {
            Ok(v) => spec_interpret(status as int, status_text@, body.view()) == Ok::<Json, Seq<char>>(v.view()),
            Err(e) => e matches Error::Api(m) && spec_interpret(
                status as int,
                status_text@,
                body.view(),
            ) == Err::<Json, Seq<char>>(m@),
        },
{
    if status == 204 || status == 202 {
        return Ok(JsonValue::Null);
    }
    if !(200 <= status && status < 300) {
        let msg: String;
        let em = match get_value(body, "error") {
            Some(e) => get_str_field(e, "message"),
            None => None,
        };
        match em {
            Some(s) => {
                msg = s;
            },
            None => match get_str_field(body, "detail") {
                Some(s) => {
                    msg = s;
                },
                None => {
                    let mut out: Vec<char> = Vec::new();
                    append_str(&mut out, "HTTP error ");
                    append_str(&mut out, status_text);
                    msg = chars_to_string(&out);
                },
            },
        }
        return Err(Error::Api(msg));
    }
    match get_value(body, "error") {
        Some(e) => {
            match e {
                JsonValue::Null => {},
                _ => {
                    let code = match get_str_field(e, "code") {
                        Some(s) => s,
                        None => "UNKNOWN".to_owned(),
                    };
                    let message = match get_str_field(e, "message") {
                        Some(s) => s,
                        None => "Unknown error".to_owned(),
                    };
                    let mut out: Vec<char> = Vec::new();
                    out.push('[');
                    append_str(&mut out, code.as_str());
                    out.push(']');
                    out.push(' ');
                    append_str(&mut out, message.as_str());
                    proof {
                        assert(out@ =~= seq!['['] + error_code_of(e.view()) + seq![']', ' ']
                            + error_message_of(e.view()));
                    }
                    return Err(Error::Api(chars_to_string(&out)));
                },
            }
        },
        None => {},
    }
    match get_value(body, "result") {
        Some(res) => Ok(crate::output::clone_value(res)),
        None => Ok(crate::output::clone_value(body)),
    }
}

/// The number a text stands for when it is one, null otherwise: how an
/// optional score threshold enters a request body.
pub open spec fn spec_num_or_null(t: Option<Seq<char>>) -> Json {
    match t {
        Some(s) => if crate::parse::is_json_number(s) {
            Json::Number(s)
        } else {
            Json::Null
        },
        None => Json::Null,
    }
}

pub open spec fn view_opt_str(t: Option<&str>) -> Option<Seq<char>> {
    match t {
        Some(s) => Some(s@),
        None => None,
    }
}

fn num_or_null(t: Option<&str>) -> (r: JsonValue)
    ensures
        r.view() == spec_num_or_null(view_opt_str(t)),
{
    match t {
        Some(s) => {
            let cs = crate::text::str_to_chars(s);
            if crate::parse::is_json_number_chars(&cs) {
                JsonValue::Number(s.to_owned())
            } else {
                JsonValue::Null
            }
        },
        None => JsonValue::Null,
    }
}

fn str_or_null(t: Option<&str>) -> (r: JsonValue)
    ensures
        r.view() == match view_opt_str(t) {
            Some(s) => Json::Str(s),
            None => Json::Null,
        },
{
    match t {
        Some(s) => JsonValue::Str(s.to_owned()),
        None => JsonValue::Null,
    }
}

/// The query parameters naming one URI.
pub fn uri_params(uri: &str) -> (r: Vec<(String, String)>)
    ensures
        r@.len() == 1,
        r@[0].0@ == "uri"@ && r@[0].1@ == uri@,
{
    let mut r: Vec<(String, String)> = Vec::new();
    r.push(("uri".to_owned(), uri.to_owned()));
    r
}

/// The query parameters of a directory listing request.
pub fn ls_params(
    uri: &str,
    simple: bool,
    recursive: bool,
    output: &str,
    abs_limit: i32,
    show_all_hidden: bool,
    node_limit: i32,
) -> (r: Vec<(String, String)>)
    ensures
        r@.len() == 7,
        r@[0].0@ == "uri"@ && r@[0].1@ == uri@,
        r@[1].0@ == "simple"@ && r@[1].1@ == crate::table::spec_format_value(Json::Bool(simple)),
        r@[2].0@ == "recursive"@ && r@[2].1@ == crate::table::spec_format_value(
            Json::Bool(recursive),
        ),
        r@[3].0@ == "output"@ && r@[3].1@ == output@,
        r@[4].0@ == "abs_limit"@ && r@[4].1@ == dec_rep_signed(abs_limit as int),
        r@[5].0@ == "show_all_hidden"@ && r@[5].1@ == crate::table::spec_format_value(
            Json::Bool(show_all_hidden),
        ),
        r@[6].0@ == "node_limit"@ && r@[6].1@ == dec_rep_signed(node_limit as int),
{
    let mut r: Vec<(String, String)> = Vec::new();
    r.push(("uri".to_owned(), uri.to_owned()));
    r.push(("simple".to_owned(), bool_to_string(simple)));
    r.push(("recursive".to_owned(), bool_to_string(recursive)));
    r.push(("output".to_owned(), output.to_owned()));
    r.push(("abs_limit".to_owned(), i32_to_string(abs_limit)));
    r.push(("show_all_hidden".to_owned(), bool_to_string(show_all_hidden)));
    r.push(("node_limit".to_owned(), i32_to_string(node_limit)));
    r
}

/// The query parameters of a tree request.
pub fn tree_params(
    uri: &str,
    output: &str,
    abs_limit: i32,
    show_all_hidden: bool,
    node_limit: i32,
) -> (r: Vec<(String, String)>)
    ensures
        r@.len() == 5,
        r@[0].0@ == "uri"@ && r@[0].1@ == uri@,
        r@[1].0@ == "output"@ && r@[1].1@ == output@,
        r@[2].0@ == "abs_limit"@ && r@[2].1@ == dec_rep_signed(abs_limit as int),
        r@[3].0@ == "show_all_hidden"@ && r@[3].1@ == crate::table::spec_format_value(
            Json::Bool(show_all_hidden),
        ),
        r@[4].0@ == "node_limit"@ && r@[4].1@ == dec_rep_signed(node_limit as int),
{
    let mut r: Vec<(String, String)> = Vec::new();
    r.push(("uri".to_owned(), uri.to_owned()));
    r.push(("output".to_owned(), output.to_owned()));
    r.push(("abs_limit".to_owned(), i32_to_string(abs_limit)));
    r.push(("show_all_hidden".to_owned(), bool_to_string(show_all_hidden)));
    r.push(("node_limit".to_owned(), i32_to_string(node_limit)));
    r
}

/// The query parameters of a removal request.
pub fn rm_params(uri: &str, recursive: bool) -> (r: Vec<(String, String)>)
    ensures
        r@.len() == 2,
        r@[0].0@ == "uri"@ && r@[0].1@ == uri@,
        r@[1].0@ == "recursive"@ && r@[1].1@ == crate::table::spec_format_value(
            Json::Bool(recursive),
        ),
{
    let mut r: Vec<(String, String)> = Vec::new();
    r.push(("uri".to_owned(), uri.to_owned()));
    r.push(("recursive".to_owned(), bool_to_string(recursive)));
    r
}

/// The body of a directory creation request.
pub fn mkdir_body(uri: &str) -> (r: JsonValue)
    ensures
        r.view() == Json::Object(seq![("uri"@, Json::Str(uri@))]),
{
    let mut fields: Vec<(String, JsonValue)> = Vec::new();
    fields.push(("uri".to_owned(), JsonValue::Str(uri.to_owned())));
    let r = JsonValue::Object(fields);
    proof {
        crate::json::lemma_view_fields(fields@);
        assert(r.view() matches Json::Object(f) && f =~= seq![("uri"@, Json::Str(uri@))]);
    }
    r
}

/// The body of a move request.
pub fn mv_body(from_uri: &str, to_uri: &str) -> (r: JsonValue)
    ensures
        r.view() == Json::Object(
            seq![("from_uri"@, Json::Str(from_uri@)), ("to_uri"@, Json::Str(to_uri@))],
        ),
{
    let mut fields: Vec<(String, JsonValue)> = Vec::new();
    fields.push(("from_uri".to_owned(), JsonValue::Str(from_uri.to_owned())));
    fields.push(("to_uri".to_owned(), JsonValue::Str(to_uri.to_owned())));
    let r = JsonValue::Object(fields);
    proof {
        crate::json::lemma_view_fields(fields@);
        assert(r.view() matches Json::Object(f) && f =~= seq![
            ("from_uri"@, Json::Str(from_uri@)),
            ("to_uri"@, Json::Str(to_uri@)),
        ]);
    }
    r
}

/// The body of a semantic retrieval request.
pub fn find_body(query: &str, uri: &str, limit: i32, threshold: Option<&str>) -> (r: JsonValue)
    ensures
        r.view() == Json::Object(
            seq![
                ("query"@, Json::Str(query@)),
                ("target_uri"@, Json::Str(uri@)),
                ("limit"@, Json::Number(dec_rep_signed(limit as int))),
                ("score_threshold"@, spec_num_or_null(view_opt_str(threshold))),
            ],
        ),
{
    let mut fields: Vec<(String, JsonValue)> = Vec::new();
    fields.push(("query".to_owned(), JsonValue::Str(query.to_owned())));
    fields.push(("target_uri".to_owned(), JsonValue::Str(uri.to_owned())));
    fields.push(("limit".to_owned(), JsonValue::Number(i32_to_string(limit))));
    fields.push(("score_threshold".to_owned(), num_or_null(threshold)));
    let r = JsonValue::Object(fields);
    proof {
        crate::json::lemma_view_fields(fields@);
        assert(r.view() matches Json::Object(f) && f =~= seq![
            ("query"@, Json::Str(query@)),
            ("target_uri"@, Json::Str(uri@)),
            ("limit"@, Json::Number(dec_rep_signed(limit as int))),
            ("score_threshold"@, spec_num_or_null(view_opt_str(threshold))),
        ]);
    }
    r
}

/// The body of a context-aware retrieval request.
pub fn search_body(
    query: &str,
    uri: &str,
    session_id: Option<&str>,
    limit: i32,
    threshold: Option<&str>,
) -> (r: JsonValue)
    ensures
        r.view() == Json::Object(
            seq![
                ("query"@, Json::Str(query@)),
                ("target_uri"@, Json::Str(uri@)),
                (
                    "session_id"@,
                    match view_opt_str(session_id) {
                        Some(s) => Json::Str(s),
                        None => Json::Null,
                    },
                ),
                ("limit"@, Json::Number(dec_rep_signed(limit as int))),
                ("score_threshold"@, spec_num_or_null(view_opt_str(threshold))),
            ],
        ),
{
    let mut fields: Vec<(String, JsonValue)> = Vec::new();
    fields.push(("query".to_owned(), JsonValue::Str(query.to_owned())));
    fields.push(("target_uri".to_owned(), JsonValue::Str(uri.to_owned())));
    fields.push(("session_id".to_owned(), str_or_null(session_id)));
    fields.push(("limit".to_owned(), JsonValue::Number(i32_to_string(limit))));
    fields.push(("score_threshold".to_owned(), num_or_null(threshold)));
    let r = JsonValue::Object(fields);
    proof {
        crate::json::lemma_view_fields(fields@);
        assert(r.view() matches Json::Object(f) && f =~= seq![
            ("query"@, Json::Str(query@)),
            ("target_uri"@, Json::Str(uri@)),
            (
                "session_id"@,
                match view_opt_str(session_id) {
                    Some(s) => Json::Str(s),
                    None => Json::Null,
                },
            ),
            ("limit"@, Json::Number(dec_rep_signed(limit as int))),
            ("score_threshold"@, spec_num_or_null(view_opt_str(threshold))),
        ]);
    }
    r
}

/// The body of a content pattern search request.
pub fn grep_body(uri: &str, pattern: &str, ignore_case: bool) -> (r: JsonValue)
    ensures
        r.view() == Json::Object(
            seq![
                ("uri"@, Json::Str(uri@)),
                ("pattern"@, Json::Str(pattern@)),
                ("case_insensitive"@, Json::Bool(ignore_case)),
            ],
        ),
{
    let mut fields: Vec<(String, JsonValue)> = Vec::new();
    fields.push(("uri".to_owned(), JsonValue::Str(uri.to_owned())));
    fields.push(("pattern".to_owned(), JsonValue::Str(pattern.to_owned())));
    fields.push(("case_insensitive".to_owned(), JsonValue::Bool(ignore_case)));
    let r = JsonValue::Object(fields);
    proof {
        crate::json::lemma_view_fields(fields@);
        assert(r.view() matches Json::Object(f) && f =~= seq![
            ("uri"@, Json::Str(uri@)),
            ("pattern"@, Json::Str(pattern@)),
            ("case_insensitive"@, Json::Bool(ignore_case)),
        ]);
    }
    r
}

/// The body of a glob search request.
pub fn glob_body(pattern: &str, uri: &str) -> (r: JsonValue)
    ensures
        r.view() == Json::Object(
            seq![("pattern"@, Json::Str(pattern@)), ("uri"@, Json::Str(uri@))],
        ),
{
    let mut fields: Vec<(String, JsonValue)> = Vec::new();
    fields.push(("pattern".to_owned(), JsonValue::Str(pattern.to_owned())));
    fields.push(("uri".to_owned(), JsonValue::Str(uri.to_owned())));
    let r = JsonValue::Object(fields);
    proof {
        crate::json::lemma_view_fields(fields@);
        assert(r.view() matches Json::Object(f) && f =~= seq![
            ("pattern"@, Json::Str(pattern@)),
            ("uri"@, Json::Str(uri@)),
        ]);
    }
    r
}

/// The body of a resource import request.
pub fn add_resource_body(
    path: &str,
    target: Option<&str>,
    reason: &str,
    instruction: &str,
    wait: bool,
    timeout: Option<&str>,
) -> (r: JsonValue)
    ensures
        r.view() == Json::Object(
            seq![
                ("path"@, Json::Str(path@)),
                (
                    "target"@,
                    match view_opt_str(target) {
                        Some(s) => Json::Str(s),
                        None => Json::Null,
                    },
                ),
                ("reason"@, Json::Str(reason@)),
                ("instruction"@, Json::Str(instruction@)),
                ("wait"@, Json::Bool(wait)),
                ("timeout"@, spec_num_or_null(view_opt_str(timeout))),
            ],
        ),
{
    let mut fields: Vec<(String, JsonValue)> = Vec::new();
    fields.push(("path".to_owned(), JsonValue::Str(path.to_owned())));
    fields.push(("target".to_owned(), str_or_null(target)));
    fields.push(("reason".to_owned(), JsonValue::Str(reason.to_owned())));
    fields.push(("instruction".to_owned(), JsonValue::Str(instruction.to_owned())));
    fields.push(("wait".to_owned(), JsonValue::Bool(wait)));
    fields.push(("timeout".to_owned(), num_or_null(timeout)));
    let r = JsonValue::Object(fields);
    proof {
        crate::json::lemma_view_fields(fields@);
        assert(r.view() matches Json::Object(f) && f =~= seq![
            ("path"@, Json::Str(path@)),
            (
                "target"@,
                match view_opt_str(target) {
                    Some(s) => Json::Str(s),
                    None => Json::Null,
                },
            ),
            ("reason"@, Json::Str(reason@)),
            ("instruction"@, Json::Str(instruction@)),
            ("wait"@, Json::Bool(wait)),
            ("timeout"@, spec_num_or_null(view_opt_str(timeout))),
        ]);
    }
    r
}

/// The body of a skill import request.
pub fn add_skill_body(data: &str, wait: bool, timeout: Option<&str>) -> (r: JsonValue)
    ensures
        r.view() == Json::Object(
            seq![
                ("data"@, Json::Str(data@)),
                ("wait"@, Json::Bool(wait)),
                ("timeout"@, spec_num_or_null(view_opt_str(timeout))),
            ],
        ),
{
    let mut fields: Vec<(String, JsonValue)> = Vec::new();
    fields.push(("data".to_owned(), JsonValue::Str(data.to_owned())));
    fields.push(("wait".to_owned(), JsonValue::Bool(wait)));
    fields.push(("timeout".to_owned(), num_or_null(timeout)));
    let r = JsonValue::Object(fields);
    proof {
        crate::json::lemma_view_fields(fields@);
        assert(r.view() matches Json::Object(f) && f =~= seq![
            ("data"@, Json::Str(data@)),
            ("wait"@, Json::Bool(wait)),
            ("timeout"@, spec_num_or_null(view_opt_str(timeout))),
        ]);
    }
    r
}

/// The strings of a list, as JSON strings.
pub open spec fn strs_json(ss: Seq<Seq<char>>) -> Seq<Json> {
    Seq::new(ss.len(), |i: int| Json::Str(ss[i]))
}

/// The body of a link request: the source, all targets, and the reason.
pub fn link_body(from_uri: &str, to_uris: &Vec<String>, reason: &str) -> (r: JsonValue)
    ensures
        r.view() == Json::Object(
            seq![
                ("from_uri"@, Json::Str(from_uri@)),
                ("to_uris"@, Json::Array(strs_json(crate::table::strs_view(to_uris@)))),
                ("reason"@, Json::Str(reason@)),
            ],
        ),
{
    let mut items: Vec<JsonValue> = Vec::new();
    let mut i: usize = 0;
    while i < to_uris.len()
        invariant
            0 <= i <= to_uris.len(),
            items@.len() == i,
            forall|k: int| 0 <= k < i ==> items@[k].view() == Json::Str(to_uris@[k]@),
        decreases to_uris.len() - i,
    {
        items.push(JsonValue::Str(to_uris[i].clone()));
        i += 1;
    }
    proof {
        crate::json::lemma_view_elems(items@);
        assert(crate::json::view_elems(items@) =~= strs_json(crate::table::strs_view(to_uris@)));
    }
    let mut fields: Vec<(String, JsonValue)> = Vec::new();
    fields.push(("from_uri".to_owned(), JsonValue::Str(from_uri.to_owned())));
    fields.push(("to_uris".to_owned(), JsonValue::Array(items)));
    fields.push(("reason".to_owned(), JsonValue::Str(reason.to_owned())));
    let r = JsonValue::Object(fields);
    proof {
        crate::json::lemma_view_fields(fields@);
        assert(r.view() matches Json::Object(f) && f =~= seq![
            ("from_uri"@, Json::Str(from_uri@)),
            ("to_uris"@, Json::Array(strs_json(crate::table::strs_view(to_uris@)))),
            ("reason"@, Json::Str(reason@)),
        ]);
    }
    r
}

/// The confirmation shown when the server answers a link request with
/// nothing: the source, the targets, and the reason.
pub fn link_summary(from_uri: &str, to_uris: &Vec<String>, reason: &str) -> (r: JsonValue)
    ensures
        r.view() == Json::Object(
            seq![
                ("from"@, Json::Str(from_uri@)),
                ("to"@, Json::Array(strs_json(crate::table::strs_view(to_uris@)))),
                ("reason"@, Json::Str(reason@)),
            ],
        ),
{
    let mut items: Vec<JsonValue> = Vec::new();
    let mut i: usize = 0;
    while i < to_uris.len()
        invariant
            0 <= i <= to_uris.len(),
            items@.len() == i,
            forall|k: int| 0 <= k < i ==> items@[k].view() == Json::Str(to_uris@[k]@),
        decreases to_uris.len() - i,
    {
        items.push(JsonValue::Str(to_uris[i].clone()));
        i += 1;
    }
    proof {
        crate::json::lemma_view_elems(items@);
        assert(crate::json::view_elems(items@) =~= strs_json(crate::table::strs_view(to_uris@)));
    }
    let mut fields: Vec<(String, JsonValue)> = Vec::new();
    fields.push(("from".to_owned(), JsonValue::Str(from_uri.to_owned())));
    fields.push(("to".to_owned(), JsonValue::Array(items)));
    fields.push(("reason".to_owned(), JsonValue::Str(reason.to_owned())));
    let r = JsonValue::Object(fields);
    proof {
        crate::json::lemma_view_fields(fields@);
        assert(r.view() matches Json::Object(f) && f =~= seq![
            ("from"@, Json::Str(from_uri@)),
            ("to"@, Json::Array(strs_json(crate::table::strs_view(to_uris@)))),
            ("reason"@, Json::Str(reason@)),
        ]);
    }
    r
}

/// The confirmation shown when the server answers an unlink request with
/// nothing.
pub fn unlink_summary(from_uri: &str, to_uri: &str) -> (r: JsonValue)
    ensures
        r.view() == Json::Object(
            seq![("from"@, Json::Str(from_uri@)), ("to"@, Json::Str(to_uri@))],
        ),
{
    let mut fields: Vec<(String, JsonValue)> = Vec::new();
    fields.push(("from".to_owned(), JsonValue::Str(from_uri.to_owned())));
    fields.push(("to".to_owned(), JsonValue::Str(to_uri.to_owned())));
    let r = JsonValue::Object(fields);
    proof {
        crate::json::lemma_view_fields(fields@);
        assert(r.view() matches Json::Object(f) && f =~= seq![
            ("from"@, Json::Str(from_uri@)),
            ("to"@, Json::Str(to_uri@)),
        ]);
    }
    r
}

/// The body of an unlink request.
pub fn unlink_body(from_uri: &str, to_uri: &str) -> (r: JsonValue)
    ensures
        r.view() == Json::Object(
            seq![("from_uri"@, Json::Str(from_uri@)), ("to_uri"@, Json::Str(to_uri@))],
        ),
{
    let mut fields: Vec<(String, JsonValue)> = Vec::new();
    fields.push(("from_uri".to_owned(), JsonValue::Str(from_uri.to_owned())));
    fields.push(("to_uri".to_owned(), JsonValue::Str(to_uri.to_owned())));
    let r = JsonValue::Object(fields);
    proof {
        crate::json::lemma_view_fields(fields@);
        assert(r.view() matches Json::Object(f) && f =~= seq![
            ("from_uri"@, Json::Str(from_uri@)),
            ("to_uri"@, Json::Str(to_uri@)),
        ]);
    }
    r
}

/// The body of a pack export request.
pub fn export_body(uri: &str, to: &str) -> (r: JsonValue)
    ensures
        r.view() == Json::Object(seq![("uri"@, Json::Str(uri@)), ("to"@, Json::Str(to@))]),
{
    let mut fields: Vec<(String, JsonValue)> = Vec::new();
    fields.push(("uri".to_owned(), JsonValue::Str(uri.to_owned())));
    fields.push(("to".to_owned(), JsonValue::Str(to.to_owned())));
    let r = JsonValue::Object(fields);
    proof {
        crate::json::lemma_view_fields(fields@);
        assert(r.view() matches Json::Object(f) && f =~= seq![
            ("uri"@, Json::Str(uri@)),
            ("to"@, Json::Str(to@)),
        ]);
    }
    r
}

/// The body of a pack import request.
pub fn import_body(file_path: &str, parent: &str, force: bool, vectorize: bool) -> (r: JsonValue)
    ensures
        r.view() == Json::Object(
            seq![
                ("file_path"@, Json::Str(file_path@)),
                ("parent"@, Json::Str(parent@)),
                ("force"@, Json::Bool(force)),
                ("vectorize"@, Json::Bool(vectorize)),
            ],
        ),
{
    let mut fields: Vec<(String, JsonValue)> = Vec::new();
    fields.push(("file_path".to_owned(), JsonValue::Str(file_path.to_owned())));
    fields.push(("parent".to_owned(), JsonValue::Str(parent.to_owned())));
    fields.push(("force".to_owned(), JsonValue::Bool(force)));
    fields.push(("vectorize".to_owned(), JsonValue::Bool(vectorize)));
    let r = JsonValue::Object(fields);
    proof {
        crate::json::lemma_view_fields(fields@);
        assert(r.view() matches Json::Object(f) && f =~= seq![
            ("file_path"@, Json::Str(file_path@)),
            ("parent"@, Json::Str(parent@)),
            ("force"@, Json::Bool(force)),
            ("vectorize"@, Json::Bool(vectorize)),
        ]);
    }
    r
}

/// The body of a message, for a session.
pub fn message_body(role: &str, content: &str) -> (r: JsonValue)
    ensures
        r.view() == Json::Object(
            seq![("role"@, Json::Str(role@)), ("content"@, Json::Str(content@))],
        ),
{
    let mut fields: Vec<(String, JsonValue)> = Vec::new();
    fields.push(("role".to_owned(), JsonValue::Str(role.to_owned())));
    fields.push(("content".to_owned(), JsonValue::Str(content.to_owned())));
    let r = JsonValue::Object(fields);
    proof {
        crate::json::lemma_view_fields(fields@);
        assert(r.view() matches Json::Object(f) && f =~= seq![
            ("role"@, Json::Str(role@)),
            ("content"@, Json::Str(content@)),
        ]);
    }
    r
}

/// The path of one session's resource.
pub fn session_path(session_id: &str) -> (r: String)
    ensures
        r@ == "/api/v1/sessions/"@ + url_encoded(session_id@),
{
    let mut out: Vec<char> = Vec::new();
    append_str(&mut out, "/api/v1/sessions/");
    let enc = url_encode(session_id);
    append_str(&mut out, enc.as_str());
    chars_to_string(&out)
}

/// The path of one session's message list.
pub fn session_messages_path(session_id: &str) -> (r: String)
    ensures
        r@ == "/api/v1/sessions/"@ + url_encoded(session_id@) + "/messages"@,
{
    let mut out: Vec<char> = Vec::new();
    append_str(&mut out, "/api/v1/sessions/");
    let enc = url_encode(session_id);
    append_str(&mut out, enc.as_str());
    append_str(&mut out, "/messages");
    chars_to_string(&out)
}

/// The path of one session's commit action.
pub fn session_commit_path(session_id: &str) -> (r: String)
    ensures
        r@ == "/api/v1/sessions/"@ + url_encoded(session_id@) + "/commit"@,
{
    let mut out: Vec<char> = Vec::new();
    append_str(&mut out, "/api/v1/sessions/");
    let enc = url_encode(session_id);
    append_str(&mut out, enc.as_str());
    append_str(&mut out, "/commit");
    chars_to_string(&out)
}

/// The path of the wait action, with its timeout when one is given.
pub fn wait_path(timeout: Option<&str>) -> (r: String)
    ensures
        r@ == match view_opt_str(timeout) {
            Some(t) => "/api/v1/system/wait?timeout="@ + t,
            None => "/api/v1/system/wait"@,
        },
{
    match timeout {
        Some(t) => {
            let mut out: Vec<char> = Vec::new();
            append_str(&mut out, "/api/v1/system/wait?timeout=");
            append_str(&mut out, t);
            chars_to_string(&out)
        },
        None => "/api/v1/system/wait".to_owned(),
    }
}

/// The session a creation response names.
pub fn session_id_of(response: &JsonValue) -> (r: Option<String>)
    ensures
        match r {
            Some(s) => str_field(response.view(), "session_id"@) == Some(s@),
            None => str_field(response.view(), "session_id"@) is None,
        },
{
    get_str_field(response, "session_id")
}

/// What a deletion reports: the response itself, or a `session_id` object
/// when the server answered with null or an empty object.
pub open spec fn spec_delete_session_result(j: Json, session_id: Seq<char>) -> Json {
    if j is Null || (j matches Json::Object(f) && f.len() == 0) {
        Json::Object(seq![("session_id"@, Json::Str(session_id))])
    } else {
        j
    }
}

pub fn delete_session_result(response: &JsonValue, session_id: &str) -> (r: JsonValue)
    ensures
        r.view() == spec_delete_session_result(response.view(), session_id@),
{
    let empty_like: bool = match response {
        JsonValue::Null => true,
        JsonValue::Object(fields) => {
            proof {
                crate::json::lemma_view_fields(fields@);
            }
            fields.len() == 0
        },
        _ => false,
    };
    if empty_like {
        let mut fields: Vec<(String, JsonValue)> = Vec::new();
        fields.push(("session_id".to_owned(), JsonValue::Str(session_id.to_owned())));
        let r = JsonValue::Object(fields);
        proof {
            crate::json::lemma_view_fields(fields@);
            assert(r.view() matches Json::Object(f) && f =~= seq![
                ("session_id"@, Json::Str(session_id@)),
            ]);
        }
        r
    } else {
        crate::output::clone_value(response)
    }
}

/// The role and content a message item carries, with the defaults `user`
/// and the empty string.
pub open spec fn msg_of_item(j: Json) -> (Seq<char>, Seq<char>) {
    (
        match str_field(j, "role"@) {
            Some(s) => s,
            None => "user"@,
        },
        match str_field(j, "content"@) {
            Some(s) => s,
            None => ""@,
        },
    )
}

/// The messages a memory input stands for: a JSON list of message objects
/// gives one message each; a JSON value with a `role` or `content` gives
/// one message; anything else is a single message from `user` holding the
/// input verbatim.
pub open spec fn spec_memory_messages(input: Seq<char>) -> Seq<(Seq<char>, Seq<char>)> {
    match crate::parse::spec_parse_json(input) {
        Some(j) => match j {
            Json::Array(items) => Seq::new(items.len(), |i: int| msg_of_item(items[i])),
            _ => if j_get(j, "role"@) is Some || j_get(j, "content"@) is Some {
                seq![msg_of_item(j)]
            } else {
                seq![("user"@, input)]
            },
        },
        None => seq![("user"@, input)],
    }
}

fn item_message(v: &JsonValue) -> (r: (String, String))
    ensures
        (r.0@, r.1@) == msg_of_item(v.view()),
{
    let role = match get_str_field(v, "role") {
        Some(s) => s,
        None => "user".to_owned(),
    };
    let content = match get_str_field(v, "content") {
        Some(s) => s,
        None => "".to_owned(),
    };
    (role, content)
}

/// Whether `a` is lexicographically at most `b`, from position `i` on.
pub open spec fn lex_le_from(a: Seq<char>, b: Seq<char>, i: int) -> bool
    decreases a.len() - i,
{
    if i >= a.len() {
        true
    } else if i >= b.len() {
        false
    } else if (a[i] as u32) < (b[i] as u32) {
        true
    } else if (a[i] as u32) > (b[i] as u32) {
        false
    } else {
        lex_le_from(a, b, i + 1)
    }
}

fn lex_le_exec(a: &Vec<char>, b: &Vec<char>, i: usize) -> (r: bool)
    requires
        i <= a@.len(),
    ensures
        r == lex_le_from(a@, b@, i as int),
    decreases a@.len() - i,
{
    if i >= a.len() {
        true
    } else if i >= b.len() {
        false
    } else if (a[i] as u32) < (b[i] as u32) {
        true
    } else if (a[i] as u32) > (b[i] as u32) {
        false
    } else {
        lex_le_exec(a, b, i + 1)
    }
}

/// Whether a number text holds a whole number in the signed 64-bit range:
/// what an extracted-count field must look like to be read as a count.
pub open spec fn is_i64_text(s: Seq<char>) -> bool {
    let neg = s.len() > 0 && s[0] == '-';
    let d = if neg {
        s.subrange(1, s.len() as int)
    } else {
        s
    };
    let bound: Seq<char> = if neg {
        "9223372036854775808"@
    } else {
        "9223372036854775807"@
    };
    d.len() > 0 && crate::numeric::digit_run(d, 0) == d.len() && (d.len() < 19 || (d.len() == 19
        && lex_le_from(d, bound, 0)))
}

fn is_i64_chars(cs: &Vec<char>) -> (r: bool)
    ensures
        r == is_i64_text(cs@),
{
    let neg = cs.len() > 0 && cs[0] == '-';
    let start: usize = if neg {
        1
    } else {
        0
    };
    if cs.len() <= start {
        return false;
    }
    let mut d: Vec<char> = Vec::new();
    let mut i = start;
    while i < cs.len()
        invariant
            start <= i <= cs@.len(),
            d@ == cs@.subrange(start as int, i as int),
        decreases cs@.len() - i,
    {
        d.push(cs[i]);
        i += 1;
        proof {
            assert(d@ =~= cs@.subrange(start as int, i as int));
        }
    }
    proof {
        if !neg {
            assert(cs@.subrange(0, cs@.len() as int) =~= cs@);
        }
    }
    let all_digits = crate::numeric::digit_run_from(&d, 0) == d.len();
    if !all_digits {
        return false;
    }
    if d.len() < 19 {
        return true;
    }
    if d.len() > 19 {
        return false;
    }
    let bound = crate::text::str_to_chars(
        if neg {
            "9223372036854775808"
        } else {
            "9223372036854775807"
        },
    );
    lex_le_exec(&d, &bound, 0)
}

/// The count an extracted-count field carries: its whole-number text, or
/// zero when the field is absent, of another type, or out of range.
pub open spec fn extracted_count_text(j: Json) -> Seq<char> {
    match j_get(j, "memories_extracted"@) {
        Some(Json::Number(t)) => if is_i64_text(t) {
            t
        } else {
            "0"@
        },
        _ => "0"@,
    }
}

/// What a one-shot memory run reports: the number of memories the commit
/// extracted.
pub fn memory_commit_summary(commit_response: &JsonValue) -> (r: JsonValue)
    ensures
        r.view() == Json::Object(
            seq![("memories_extracted"@, Json::Number(extracted_count_text(commit_response.view())))],
        ),
{
    let count: String;
    match get_value(commit_response, "memories_extracted") {
        Some(x) => match x {
            JsonValue::Number(t) => {
                let cs = crate::text::str_to_chars(t.as_str());
                if is_i64_chars(&cs) {
                    count = t.clone();
                } else {
                    count = "0".to_owned();
                }
            },
            _ => {
                count = "0".to_owned();
            },
        },
        None => {
            count = "0".to_owned();
        },
    }
    let mut fields: Vec<(String, JsonValue)> = Vec::new();
    fields.push(("memories_extracted".to_owned(), JsonValue::Number(count)));
    let r = JsonValue::Object(fields);
    proof {
        crate::json::lemma_view_fields(fields@);
        assert(r.view() matches Json::Object(f) && f =~= seq![
            ("memories_extracted"@, Json::Number(extracted_count_text(commit_response.view()))),
        ]);
    }
    r
}

/// The messages a memory input stands for.
pub fn memory_messages(input: &str) -> (r: Vec<(String, String)>)
    ensures
        r@.len() == spec_memory_messages(input@).len(),
        forall|k: int|
            0 <= k < r@.len() ==> (r@[k].0@, r@[k].1@) == spec_memory_messages(input@)[k],
{
    match crate::parse::parse_json(input) {
        Some(v) => match &v {
            JsonValue::Array(items) => {
                let ghost ve = crate::json::view_elems(items@);
                proof {
                    crate::json::lemma_view_elems(items@);
                }
                let mut out: Vec<(String, String)> = Vec::new();
                let mut i: usize = 0;
                while i < items.len()
                    invariant
                        0 <= i <= items.len(),
                        ve == crate::json::view_elems(items@),
                        ve.len() == items@.len(),
                        forall|k: int| 0 <= k < items@.len() ==> ve[k] == items@[k].view(),
                        out@.len() == i,
                        forall|k: int|
                            0 <= k < i ==> (out@[k].0@, out@[k].1@) == msg_of_item(ve[k]),
                    decreases items.len() - i,
                {
                    let m = item_message(&items[i]);
                    out.push(m);
                    i += 1;
                }
                out
            },
            _ => {
                let has_role = match get_value(&v, "role") {
                    Some(_) => true,
                    None => false,
                };
                let has_content = match get_value(&v, "content") {
                    Some(_) => true,
                    None => false,
                };
                let mut out: Vec<(String, String)> = Vec::new();
                if has_role || has_content {
                    let m = item_message(&v);
                    out.push(m);
                } else {
                    out.push(("user".to_owned(), input.to_owned()));
                }
                out
            },
        },
        None => {
            let mut out: Vec<(String, String)> = Vec::new();
            out.push(("user".to_owned(), input.to_owned()));
            out
        },
    }
}

} // verus!
