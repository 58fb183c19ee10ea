//! The local control API of the desktop dashboard.
//!
//! Requests arrive as raw HTTP text. The request line picks the endpoint by
//! method and path; a settings update carries its JSON after the blank line
//! that ends the headers. The socket, the JSON and the responses stay with the
//! caller.
use vstd::prelude::*;

use crate::settings::AppSettings;
use crate::text::{
    append_decimal, chars_of, find, find_char, is_whitespace, same_chars, slice_chars, spec_decimal,
    spec_is_whitespace,
};
use vstd::string::{StrSliceExecFns, StringExecFns};

verus! {

/// An endpoint of the dashboard's API.
#[derive(Debug, Clone, Copy, PartialEq, Eq, Structural)]
pub enum ApiRequest {
    /// `GET /`: the dashboard page.
    Dashboard,
    /// `GET /api/status`: the engine's state and telemetry.
    Status,
    /// `GET /api/profiles`: the available game profiles.
    Profiles,
    /// `POST /api/toggle`: start or stop the engine.
    Toggle,
    /// `POST /api/settings`: change the gateway host or the active profile.
    Settings,
    /// Anything else.
    NotFound,
}

/// The first line of `s`: the text before the first '\n', without one '\r'
/// just before it; all of `s` when it holds no '\n'.
pub open spec fn first_line(s: Seq<char>) -> Seq<char> {
    match find_char(s, '\n', 0) {
        Some(k) => {
            let l = s.subrange(0, k);
            if l.len() > 0 && l.last() == '\r' {
                l.drop_last()
            } else {
                l
            }
        },
        None => s,
    }
}

/// The first position at or after `i` that holds no whitespace, or the end.
pub open spec fn skip_space(s: Seq<char>, i: int) -> int
    decreases s.len() - i,
{
    if i < 0 || i >= s.len() || !spec_is_whitespace(s[i]) {
        i
    } else {
        skip_space(s, i + 1)
    }
}

/// The first position at or after `i` that holds whitespace, or the end.
pub open spec fn skip_word(s: Seq<char>, i: int) -> int
    decreases s.len() - i,
{
    if i < 0 || i >= s.len() || spec_is_whitespace(s[i]) {
        i
    } else {
        skip_word(s, i + 1)
    }
}

/// The first two whitespace-separated words of `line`, when it has two.
pub open spec fn first_two_words(line: Seq<char>) -> Option<(Seq<char>, Seq<char>)> {
    let a1 = skip_space(line, 0);
    let b1 = skip_word(line, a1);
    let a2 = skip_space(line, b1);
    let b2 = skip_word(line, a2);
    if a2 < line.len() {
        Some((line.subrange(a1, b1), line.subrange(a2, b2)))
    } else {
        None
    }
}

/// The endpoint for a method and a path.
pub open spec fn spec_endpoint(method: Seq<char>, path: Seq<char>) -> ApiRequest {
    if method == "GET"@ && path == "/"@ {
        ApiRequest::Dashboard
    } else if method == "GET"@ && path == "/api/status"@ {
        ApiRequest::Status
    } else if method == "GET"@ && path == "/api/profiles"@ {
        ApiRequest::Profiles
    } else if method == "POST"@ && path == "/api/toggle"@ {
        ApiRequest::Toggle
    } else if method == "POST"@ && path == "/api/settings"@ {
        ApiRequest::Settings
    } else {
        ApiRequest::NotFound
    }
}

/// The endpoint a request asks for: taken from the method and the path, the
/// first two words of its first line. Nothing when that line has fewer than
/// two words.
pub open spec fn spec_route_request(req: Seq<char>) -> Option<ApiRequest> {
    match first_two_words(first_line(req)) {
        Some((m, p)) => Some(spec_endpoint(m, p)),
        None => None,
    }
}

/// Whether the four characters of `s` at `k` are "\r\n\r\n".
pub open spec fn blank_line_at(s: Seq<char>, k: int) -> bool {
    0 <= k && k + 4 <= s.len() && s[k] == '\r' && s[k + 1] == '\n' && s[k + 2] == '\r' && s[k + 3]
        == '\n'
}

/// The first position at or after `from` where "\r\n\r\n" starts in `s`.
pub open spec fn find_blank_line(s: Seq<char>, from: int) -> Option<int>
    decreases s.len() - from,
{
    if from < 0 || from + 4 > s.len() {
        None
    } else if blank_line_at(s, from) {
        Some(from)
    } else {
        find_blank_line(s, from + 1)
    }
}

/// The body of a request: what follows the first "\r\n\r\n", if any.
pub open spec fn spec_request_body(req: Seq<char>) -> Option<Seq<char>> {
    match find_blank_line(req, 0) {
        Some(k) => Some(req.subrange(k + 4, req.len() as int)),
        None => None,
    }
}

/// The first line of `s`.
fn first_line_of(s: &Vec<char>) -> (r: Vec<char>)
    ensures
        r@ == first_line(s@),
{
    match find(s, '\n') {
        Some(k) => {
            let l = slice_chars(s, 0, k);
            if l.len() > 0 && l[l.len() - 1] == '\r' {
                let r = slice_chars(&l, 0, l.len() - 1);
                assert(r@ =~= l@.drop_last());
                r
            } else {
                l
            }
        },
        None => slice_chars(s, 0, s.len()),
    }
}

/// `skip_space(s@, i)`.
fn skip_space_from(s: &Vec<char>, i: usize) -> (j: usize)
    requires
        i <= s@.len(),
    ensures
        j as int == skip_space(s@, i as int),
        i <= j <= s@.len(),
{
    let mut j = i;
    while j < s.len() && is_whitespace(s[j])
        invariant
            i <= j <= s@.len(),
            skip_space(s@, j as int) == skip_space(s@, i as int),
        decreases s@.len() - j,
    {
        j = j + 1;
    }
    j
}

/// `skip_word(s@, i)`.
fn skip_word_from(s: &Vec<char>, i: usize) -> (j: usize)
    requires
        i <= s@.len(),
    ensures
        j as int == skip_word(s@, i as int),
        i <= j <= s@.len(),
{
    let mut j = i;
    while j < s.len() && !is_whitespace(s[j])
        invariant
            i <= j <= s@.len(),
            skip_word(s@, j as int) == skip_word(s@, i as int),
        decreases s@.len() - j,
    {
        j = j + 1;
    }
    j
}

/// Whether the characters of `a` are those of `lit`.
fn is_text(a: &Vec<char>, lit: &str) -> (r: bool)
    ensures
        r == (a@ == lit@),
{
    let b = chars_of(lit);
    same_chars(a, &b)
}

/// The endpoint for a method and a path.
fn endpoint(method: &Vec<char>, path: &Vec<char>) -> (r: ApiRequest)
    ensures
        r == spec_endpoint(method@, path@),
{
    let get = is_text(method, "GET");
    let post = is_text(method, "POST");
    if get && is_text(path, "/") {
        ApiRequest::Dashboard
    } else if get && is_text(path, "/api/status") {
        ApiRequest::Status
    } else if get && is_text(path, "/api/profiles") {
        ApiRequest::Profiles
    } else if post && is_text(path, "/api/toggle") {
        ApiRequest::Toggle
    } else if post && is_text(path, "/api/settings") {
        ApiRequest::Settings
    } else {
        ApiRequest::NotFound
    }
}

/// The endpoint the request `req` asks for, from the method and path at the
/// start of its first line; `None` (no answer is due) when that line has
/// fewer than two words.
pub fn route_request(req: &str) -> (r: Option<ApiRequest>)
    ensures
        r == spec_route_request(req@),
{
    let cs = chars_of(req);
    let line = first_line_of(&cs);
    let a1 = skip_space_from(&line, 0);
    let b1 = skip_word_from(&line, a1);
    let a2 = skip_space_from(&line, b1);
    let b2 = skip_word_from(&line, a2);
    if a2 < line.len() {
        let method = slice_chars(&line, a1, b1);
        let path = slice_chars(&line, a2, b2);
        Some(endpoint(&method, &path))
    } else {
        None
    }
}

/// The body of the request `req`: the characters after the first blank line
/// ("\r\n\r\n"); `None` when there is none.
pub fn request_body(req: &str) -> (r: Option<&str>)
    ensures
        match r {
            Some(b) => spec_request_body(req@) == Some(b@),
            None => spec_request_body(req@) is None,
        },
{
    let cs = chars_of(req);
    let n = cs.len();
    let mut k: usize = 0;
    while n >= 4 && k <= n - 4
        invariant
            n == cs@.len(),
            cs@ == req@,
            k <= n,
            find_blank_line(cs@, 0) == find_blank_line(cs@, k as int),
        decreases n - k,
    {
        if cs[k] == '\r' && cs[k + 1] == '\n' && cs[k + 2] == '\r' && cs[k + 3] == '\n' {
            return Some(req.substring_char(k + 4, n));
        }
        k = k + 1;
    }
    None
}

/// Applies a settings update from the dashboard: each of the gateway host and
/// the active profile that the update carries replaces the current one; the
/// rest stays.
pub fn update_settings(settings: &mut AppSettings, vps_host: Option<String>, active_profile: Option<String>)
    ensures
        final(settings).vps_host@ == (match vps_host {
            Some(h) => h@,
            None => old(settings).vps_host@,
        }),
        final(settings).active_profile@ == (match active_profile {
            Some(p) => p@,
            None => old(settings).active_profile@,
        }),
        final(settings).vps_ch1 == old(settings).vps_ch1,
        final(settings).vps_ch2 == old(settings).vps_ch2,
        final(settings).enable_registry_tuning == old(settings).enable_registry_tuning,
        final(settings).auto_connect == old(settings).auto_connect,
{
    if let Some(h) = vps_host {
        settings.vps_host = h;
    }
    if let Some(p) = active_profile {
        settings.active_profile = p;
    }
}

/// The answer to a toggle or a settings update.
pub const OK_EMPTY: &'static str = "HTTP/1.1 200 OK\r\nContent-Length: 2\r\nConnection: close\r\n\r\nOK";

/// The answer to a request for an unknown endpoint.
pub const NOT_FOUND: &'static str = "HTTP/1.1 404 Not Found\r\nContent-Length: 0\r\nConnection: close\r\n\r\n";

/// A successful HTTP response carrying `body` as `content_type`, with its
/// length in bytes as Content-Length, closing the connection.
pub open spec fn spec_ok_response(content_type: Seq<char>, body: &str) -> Seq<char> {
    "HTTP/1.1 200 OK\r\nContent-Type: "@ + content_type + "\r\nContent-Length: "@ + spec_decimal(body.len() as nat) + "\r\nConnection: close\r\n\r\n"@ + body@
}

/// A successful HTTP response carrying `body` as `content_type`.
pub fn ok_response(content_type: &str, body: &str) -> (r: String)
    ensures
        r@ == spec_ok_response(content_type@, body),
{
    let mut r = "HTTP/1.1 200 OK\r\nContent-Type: ".to_owned();
    r.append(content_type);
    r.append("\r\nContent-Length: ");
    append_decimal(&mut r, body.len() as u64);
    r.append("\r\nConnection: close\r\n\r\n");
    r.append(body);
    r
}

/// Whether the text `body` is a JSON document: what `serde_json::from_str`
/// into a `serde_json::Value` decides.
pub uninterp spec fn spec_json_parses(body: Seq<char>) -> bool;

/// The string value of the field `key` of the JSON document `body`: what
/// `serde_json::from_str` into a `serde_json::Value` followed by `get(key)`
/// gives when the field holds a JSON string; nothing when `body` is no JSON,
/// is not an object, lacks the field, or holds another kind of value in it.
pub uninterp spec fn spec_json_string_field(body: Seq<char>, key: Seq<char>) -> Option<Seq<char>>;

/// The JSON text that `serde_json::to_string` writes for an array of objects
/// whose fields are the (name, string value) pairs of `rows`.
pub uninterp spec fn spec_json_objects_text(rows: Seq<Seq<(Seq<char>, Seq<char>)>>) -> Seq<char>;

/// Calls `serde_json::from_str::<serde_json::Value>` on `body` and tells
/// whether it succeeds; the result is named `spec_json_parses`.
#[verifier::external_body]
fn json_parses(body: &str) -> (r: bool)
    ensures
        r == spec_json_parses(body@),
{
    serde_json::from_str::<serde_json::Value>(body).is_ok()
}

/// Calls `serde_json::from_str::<serde_json::Value>` on `body` and
/// `Value::get(key)` on the result, keeping a string value; the result is
/// named `spec_json_string_field`.
#[verifier::external_body]
fn json_string_field(body: &str, key: &str) -> (r: Option<String>)
    ensures
        match r {
            Some(v) => spec_json_string_field(body@, key@) == Some(v@),
            None => spec_json_string_field(body@, key@) is None,
        },
{
    match serde_json::from_str::<serde_json::Value>(body) {
        Ok(v) => match v.get(key) {
            Some(serde_json::Value::String(s)) => Some(s.clone()),
            _ => None,
        },
        Err(_) => None,
    }
}

/// The rows as values.
pub open spec fn rows_view(rows: Seq<Vec<(String, String)>>) -> Seq<Seq<(Seq<char>, Seq<char>)>> {
    rows.map_values(|r: Vec<(String, String)>| r@.map_values(|f: (String, String)| (f.0@, f.1@)))
}

/// Calls `serde_json::to_string` on an array of JSON objects, one per row,
/// each with the row's (name, string value) fields; the result is named
/// `spec_json_objects_text`.
#[verifier::external_body]
fn json_objects_text(rows: &Vec<Vec<(String, String)>>) -> (r: String)
    ensures
        r@ == spec_json_objects_text(rows_view(rows@)),
{
    let values: Vec<serde_json::Value> = rows.iter().map(|row| {
        serde_json::Value::Object(
            row.iter().map(|(k, v)| (k.clone(), serde_json::Value::String(v.clone()))).collect(),
        )
    }).collect();
    serde_json::to_string(&values).unwrap_or_else(|_| "[]".to_string())
}

/// Applies the settings update that the request `req` carries. When the
/// request has a body and the body is JSON, the gateway host and the active
/// profile become the string values of its fields "vps_host" and
/// "active_profile", each only when the body holds it as a string, and
/// `true` is returned; otherwise nothing changes and `false` is returned.
pub fn apply_settings_request(settings: &mut AppSettings, req: &str) -> (applied: bool)
    ensures
        applied == (spec_request_body(req@) matches Some(b) && spec_json_parses(b)),
        applied ==> ({
            let b = spec_request_body(req@)->0;
            &&& final(settings).vps_host@ == (match spec_json_string_field(b, "vps_host"@) {
                Some(h) => h,
                None => old(settings).vps_host@,
            })
            &&& final(settings).active_profile@ == (match spec_json_string_field(b, "active_profile"@) {
                Some(p) => p,
                None => old(settings).active_profile@,
            })
            &&& final(settings).vps_ch1 == old(settings).vps_ch1
            &&& final(settings).vps_ch2 == old(settings).vps_ch2
            &&& final(settings).enable_registry_tuning == old(settings).enable_registry_tuning
            &&& final(settings).auto_connect == old(settings).auto_connect
        }),
        !applied ==> *final(settings) == *old(settings),
{
    match request_body(req) {
        None => false,
        Some(body) => {
            if !json_parses(body) {
                return false;
            }
            let host = json_string_field(body, "vps_host");
            let profile = json_string_field(body, "active_profile");
            update_settings(settings, host, profile);
            true
        },
    }
}

/// The dashboard's list entries as JSON fields: path, id and name of each
/// profile.
pub open spec fn listing_rows(entries: Seq<(String, String, String)>) -> Seq<Seq<(Seq<char>, Seq<char>)>> {
    entries.map_values(
        |e: (String, String, String)| seq![("path"@, e.0@), ("id"@, e.1@), ("name"@, e.2@)],
    )
}

/// The JSON array that GET /api/profiles answers with: one object with the
/// fields "path", "id" and "name" for each (path, id, name) entry.
pub fn profile_list_json(entries: &Vec<(String, String, String)>) -> (r: String)
    ensures
        r@ == spec_json_objects_text(listing_rows(entries@)),
{
    let mut rows: Vec<Vec<(String, String)>> = Vec::new();
    let mut i: usize = 0;
    while i < entries.len()
        invariant
            i <= entries@.len(),
            rows_view(rows@) == listing_rows(entries@.subrange(0, i as int)),
        decreases entries@.len() - i,
    {
        let p = entries[i].0.clone();
        let d = entries[i].1.clone();
        let n = entries[i].2.clone();
        let mut row: Vec<(String, String)> = Vec::new();
        row.push(("path".to_owned(), p));
        row.push(("id".to_owned(), d));
        row.push(("name".to_owned(), n));
        let ghost fields = seq![
            ("path"@, entries@[i as int].0@),
            ("id"@, entries@[i as int].1@),
            ("name"@, entries@[i as int].2@),
        ];
        assert(row@.map_values(|f: (String, String)| (f.0@, f.1@)) =~= fields);
        let ghost before = rows@;
        rows.push(row);
        assert(rows_view(rows@) =~= rows_view(before).push(fields));
        assert(listing_rows(entries@.subrange(0, i + 1)) =~= listing_rows(entries@.subrange(0, i as int)).push(
            fields,
        ));
        i = i + 1;
    }
    assert(entries@.subrange(0, entries@.len() as int) =~= entries@);
    json_objects_text(&rows)
}

} // verus!
