//! HTTP passthrough command: request validation and response shaping.
//!
//! The backend forwards one caller-specified HTTP request to an external
//! service and relays the response. Everything around the single network
//! call is here: the method name is validated (case-insensitively, to
//! one of GET, POST, PUT or DELETE) before any I/O can happen, the fixed
//! request timeout is pinned, the response headers are collapsed to one
//! value per name (the last value wins, a non-text value becomes the
//! empty string), and every failure is reported as a human-readable
//! message naming the failing stage. The host adapter performs the send
//! itself with the prepared request and hands the raw response back.

use vstd::prelude::*;
use vstd::string::StrSliceExecFns;
use vstd::string::StringExecFns;

verus! {

/// Total timeout, in seconds, of one passthrough request.
pub const HTTP_TIMEOUT_SECS: u64 = 30;

/// The four HTTP methods the passthrough command supports.
#[derive(Clone, Copy, PartialEq, Eq, Structural, Debug)]
pub enum Method {
    Get,
    Post,
    Put,
    Delete,
}

/// The method name spells GET, in any mix of upper and lower case.
pub open spec fn spec_is_get(s: Seq<char>) -> bool {
    s.len() == 3 && (s[0] == 'G' || s[0] == 'g') && (s[1] == 'E' || s[1] == 'e') && (s[2] == 'T'
        || s[2] == 't')
}

/// The method name spells POST, in any mix of upper and lower case.
pub open spec fn spec_is_post(s: Seq<char>) -> bool {
    s.len() == 4 && (s[0] == 'P' || s[0] == 'p') && (s[1] == 'O' || s[1] == 'o') && (s[2] == 'S'
        || s[2] == 's') && (s[3] == 'T' || s[3] == 't')
}

/// The method name spells PUT, in any mix of upper and lower case.
pub open spec fn spec_is_put(s: Seq<char>) -> bool {
    s.len() == 3 && (s[0] == 'P' || s[0] == 'p') && (s[1] == 'U' || s[1] == 'u') && (s[2] == 'T'
        || s[2] == 't')
}

/// The method name spells DELETE, in any mix of upper and lower case.
pub open spec fn spec_is_delete(s: Seq<char>) -> bool {
    s.len() == 6 && (s[0] == 'D' || s[0] == 'd') && (s[1] == 'E' || s[1] == 'e') && (s[2] == 'L'
        || s[2] == 'l') && (s[3] == 'E' || s[3] == 'e') && (s[4] == 'T' || s[4] == 't') && (s[5]
        == 'E' || s[5] == 'e')
}

/// The method a name stands for, or `None` for any other name. Exactly
/// the names that spell GET, POST, PUT or DELETE case-insensitively are
/// accepted; anything else (another verb, or a name with extra
/// characters such as a trailing space) is not.
pub open spec fn spec_method_of(s: Seq<char>) -> Option<Method> {
    if spec_is_get(s) {
        Some(Method::Get)
    } else if spec_is_post(s) {
        Some(Method::Post)
    } else if spec_is_put(s) {
        Some(Method::Put)
    } else if spec_is_delete(s) {
        Some(Method::Delete)
    } else {
        None
    }
}

/// Why a passthrough request failed. Each variant carries the detail
/// text of the underlying failure; `message` renders the error string
/// handed back to the caller.
#[derive(Debug)]
pub enum HttpError {
    /// The request named a method other than GET, POST, PUT or DELETE
    /// (carries the offending name).
    UnsupportedMethod(String),
    /// The HTTP client could not be constructed.
    ClientBuild(String),
    /// Sending the request failed (connection, timeout, and the like).
    Send(String),
    /// The response body could not be read as text.
    BodyRead(String),
}

/// The error string reported for a failure: a fixed phrase naming the
/// failing stage, followed by the failure's detail text.
pub open spec fn spec_message(e: HttpError) -> Seq<char> {
    match e {
        HttpError::UnsupportedMethod(m) => "Unsupported HTTP method: "@ + m@,
        HttpError::ClientBuild(d) => "Failed to create HTTP client: "@ + d@,
        HttpError::Send(d) => "Request failed: "@ + d@,
        HttpError::BodyRead(d) => "Failed to read response body: "@ + d@,
    }
}

impl HttpError {
    /// Renders the human-readable error string for this failure.
    pub fn message(&self) -> (r: String)
        ensures
            r@ == spec_message(*self),
    {
        match self {
            HttpError::UnsupportedMethod(m) => String::from_str("Unsupported HTTP method: ").concat(
                m.as_str(),
            ),
            HttpError::ClientBuild(d) => String::from_str("Failed to create HTTP client: ").concat(
                d.as_str(),
            ),
            HttpError::Send(d) => String::from_str("Request failed: ").concat(d.as_str()),
            HttpError::BodyRead(d) => String::from_str("Failed to read response body: ").concat(
                d.as_str(),
            ),
        }
    }
}

/// Resolves a method name to the verb it dispatches to: exactly the
/// names that spell GET, POST, PUT or DELETE case-insensitively are
/// accepted; any other name is refused, carrying the name itself so the
/// unsupported-method error can report it.
pub fn parse_method(method: &str) -> (r: Result<Method, HttpError>)
    ensures
        spec_method_of(method@) matches Some(m) ==> r == Ok::<Method, HttpError>(m),
        spec_method_of(method@) is None ==> (r matches Err(HttpError::UnsupportedMethod(s)) && s@
            == method@),
{
    let n = method.unicode_len();
    if n == 3 {
        let c0 = method.get_char(0);
        let c1 = method.get_char(1);
        let c2 = method.get_char(2);
        if (c0 == 'G' || c0 == 'g') && (c1 == 'E' || c1 == 'e') && (c2 == 'T' || c2 == 't') {
            return Ok(Method::Get);
        }
        if (c0 == 'P' || c0 == 'p') && (c1 == 'U' || c1 == 'u') && (c2 == 'T' || c2 == 't') {
            return Ok(Method::Put);
        }
    } else if n == 4 {
        let c0 = method.get_char(0);
        let c1 = method.get_char(1);
        let c2 = method.get_char(2);
        let c3 = method.get_char(3);
        if (c0 == 'P' || c0 == 'p') && (c1 == 'O' || c1 == 'o') && (c2 == 'S' || c2 == 's') && (c3
            == 'T' || c3 == 't') {
            return Ok(Method::Post);
        }
    } else if n == 6 {
        let c0 = method.get_char(0);
        let c1 = method.get_char(1);
        let c2 = method.get_char(2);
        let c3 = method.get_char(3);
        let c4 = method.get_char(4);
        let c5 = method.get_char(5);
        if (c0 == 'D' || c0 == 'd') && (c1 == 'E' || c1 == 'e') && (c2 == 'L' || c2 == 'l') && (c3
            == 'E' || c3 == 'e') && (c4 == 'T' || c4 == 't') && (c5 == 'E' || c5 == 'e') {
            return Ok(Method::Delete);
        }
    }
    Err(HttpError::UnsupportedMethod(String::from_str(method)))
}

/// A validated outbound request, ready for the host adapter to send.
/// A value of this type exists only for a supported method, so the
/// unsupported-method check is over before any network I/O can start.
#[derive(Debug)]
pub struct PreparedRequest {
    pub method: Method,
    pub url: String,
    pub headers: Vec<(String, String)>,
    pub body: Option<String>,
    pub timeout_secs: u64,
}

/// Validates a passthrough request. A supported method name yields the
/// request to send — the caller's URL, headers and body unchanged, with
/// the fixed timeout; any other name is refused before any I/O, with
/// the unsupported-method error carrying the name.
pub fn prepare_request(
    url: String,
    method: &str,
    headers: Option<Vec<(String, String)>>,
    body: Option<String>,
) -> (r: Result<PreparedRequest, HttpError>)
    ensures
        spec_method_of(method@) matches Some(m) ==> (r matches Ok(p) && p.method == m && p.url
            == url && p.headers@ == (match headers {
            Some(h) => h@,
            None => Seq::<(String, String)>::empty(),
        }) && p.body == body && p.timeout_secs == HTTP_TIMEOUT_SECS),
        spec_method_of(method@) is None ==> (r matches Err(HttpError::UnsupportedMethod(s)) && s@
            == method@),
{
    let m = match parse_method(method) {
        Ok(m) => m,
        Err(e) => {
            return Err(e);
        },
    };
    let hs = match headers {
        Some(h) => h,
        None => Vec::new(),
    };
    Ok(PreparedRequest { method: m, url, headers: hs, body, timeout_secs: HTTP_TIMEOUT_SECS })
}

/// The text a received header value contributes: its characters if it
/// was valid text, the empty string if it was not.
pub open spec fn spec_header_text(v: Option<String>) -> Seq<char> {
    match v {
        Some(s) => s@,
        None => Seq::<char>::empty(),
    }
}

/// No pair after position `i` repeats the name at position `i`.
pub open spec fn spec_is_last_occurrence(raw: Seq<(String, Option<String>)>, i: int) -> bool {
    forall|i2: int| i < i2 < raw.len() ==> (#[trigger] raw[i2]).0@ != raw[i].0@
}

/// Some collapsed pair carries this name.
pub open spec fn spec_out_has_name(out: Seq<(String, String)>, name: Seq<char>) -> bool {
    exists|j: int| 0 <= j < out.len() && (#[trigger] out[j]).0@ == name
}

/// Some received pair carries this name.
pub open spec fn spec_raw_has_name(raw: Seq<(String, Option<String>)>, name: Seq<char>) -> bool {
    exists|i: int| 0 <= i < raw.len() && (#[trigger] raw[i]).0@ == name
}

/// Collapses received response headers to one value per name: every
/// received name appears exactly once, no other name appears, and a
/// repeated name keeps the value of its last occurrence. A value that
/// was not valid text contributes the empty string.
pub fn collapse_headers(raw: &Vec<(String, Option<String>)>) -> (out: Vec<(String, String)>)
    ensures
        forall|j1: int, j2: int|
            0 <= j1 < j2 < out@.len() ==> (#[trigger] out@[j1]).0@ != (#[trigger] out@[j2]).0@,
        forall|i: int| 0 <= i < raw@.len() ==> spec_out_has_name(out@, (#[trigger] raw@[i]).0@),
        forall|j: int| 0 <= j < out@.len() ==> spec_raw_has_name(raw@, (#[trigger] out@[j]).0@),
        forall|j: int, i: int|
            0 <= j < out@.len() && 0 <= i < raw@.len() && (#[trigger] out@[j]).0@ == (
            #[trigger] raw@[i]).0@ && spec_is_last_occurrence(raw@, i) ==> out@[j].1@
                == spec_header_text(raw@[i].1),
{
    let mut out: Vec<(String, String)> = Vec::new();
    let n = raw.len();
    let mut i: usize = n;
    while i > 0
        invariant
            i <= n,
            n == raw@.len(),
            forall|j1: int, j2: int|
                0 <= j1 < j2 < out@.len() ==> (#[trigger] out@[j1]).0@ != (#[trigger] out@[j2]).0@,
            forall|j: int|
                0 <= j < out@.len() ==> exists|idx: int|
                    i <= idx < n && (#[trigger] out@[j]).0@ == (#[trigger] raw@[idx]).0@
                        && spec_is_last_occurrence(raw@, idx) && out@[j].1@ == spec_header_text(
                        raw@[idx].1,
                    ),
            forall|idx: int| i <= idx < n ==> spec_out_has_name(out@, (#[trigger] raw@[idx]).0@),
        decreases i,
    {
        i = i - 1;
        let name_present = contains_name(&out, &raw[i].0);
        if !name_present {
            proof {
                assert forall|i2: int| i < i2 < raw@.len() implies (#[trigger] raw@[i2]).0@
                    != raw@[i as int].0@ by {
                    if raw@[i2].0@ == raw@[i as int].0@ {
                        assert(spec_out_has_name(out@, raw@[i2].0@));
                    }
                }
            }
            let ghost out0 = out@;
            let value = match &raw[i].1 {
                Some(v) => v.clone(),
                None => String::new(),
            };
            let name = raw[i].0.clone();
            out.push((name, value));
            proof {
                let last = out@.len() - 1;
                assert(out@[last].0@ == raw@[i as int].0@);
                assert(out@[last].1@ == spec_header_text(raw@[i as int].1));
                assert forall|j: int|
                    0 <= j < out@.len() implies exists|idx: int|
                    i <= idx < n && (#[trigger] out@[j]).0@ == (#[trigger] raw@[idx]).0@
                        && spec_is_last_occurrence(raw@, idx) && out@[j].1@ == spec_header_text(
                        raw@[idx].1,
                    ) by {
                    if j < last {
                        let idx = choose|idx: int|
                            i + 1 <= idx < n && (#[trigger] out0[j]).0@ == (#[trigger] raw@[idx]).0@
                                && spec_is_last_occurrence(raw@, idx) && out0[j].1@
                                == spec_header_text(raw@[idx].1);
                        assert(out@[j] == out0[j]);
                        assert(i <= idx < n && out@[j].0@ == raw@[idx].0@
                            && spec_is_last_occurrence(raw@, idx) && out@[j].1@ == spec_header_text(
                            raw@[idx].1,
                        ));
                    } else {
                        assert((i as int) < n && out@[j].0@ == raw@[i as int].0@
                            && spec_is_last_occurrence(raw@, i as int) && out@[j].1@
                            == spec_header_text(raw@[i as int].1));
                    }
                }
                assert forall|idx: int| i <= idx < n implies spec_out_has_name(
                    out@,
                    (#[trigger] raw@[idx]).0@,
                ) by {
                    if idx > i {
                        let j = choose|j: int|
                            0 <= j < out0.len() && (#[trigger] out0[j]).0@ == raw@[idx].0@;
                        assert(out@[j].0@ == raw@[idx].0@);
                    } else {
                        assert(out@[last].0@ == raw@[idx].0@);
                    }
                }
            }
        } else {
            proof {
                assert forall|idx: int| i <= idx < n implies spec_out_has_name(
                    out@,
                    (#[trigger] raw@[idx]).0@,
                ) by {
                    if idx == i as int {
                        assert(spec_out_has_name(out@, raw@[i as int].0@));
                    }
                }
            }
        }
    }
    proof {
        assert forall|j: int, i2: int|
            0 <= j < out@.len() && 0 <= i2 < raw@.len() && (#[trigger] out@[j]).0@ == (
            #[trigger] raw@[i2]).0@ && spec_is_last_occurrence(raw@, i2) implies out@[j].1@
            == spec_header_text(raw@[i2].1) by {
            let idx = choose|idx: int|
                0 <= idx < n && out@[j].0@ == (#[trigger] raw@[idx]).0@ && spec_is_last_occurrence(
                    raw@,
                    idx,
                ) && out@[j].1@ == spec_header_text(raw@[idx].1);
            if idx < i2 {
                assert(raw@[i2].0@ != raw@[idx].0@);
            } else if i2 < idx {
                assert(raw@[idx].0@ != raw@[i2].0@);
            }
        }
        assert forall|j: int| 0 <= j < out@.len() implies spec_raw_has_name(
            raw@,
            (#[trigger] out@[j]).0@,
        ) by {
            let idx = choose|idx: int|
                0 <= idx < n && out@[j].0@ == (#[trigger] raw@[idx]).0@ && spec_is_last_occurrence(
                    raw@,
                    idx,
                ) && out@[j].1@ == spec_header_text(raw@[idx].1);
            assert(0 <= idx < raw@.len() && raw@[idx].0@ == out@[j].0@);
        }
    }
    out
}

/// Whether a collapsed pair already carries this name.
fn contains_name(out: &Vec<(String, String)>, name: &String) -> (r: bool)
    ensures
        r == spec_out_has_name(out@, name@),
{
    let n = out.len();
    let mut k: usize = 0;
    while k < n
        invariant
            k <= n,
            n == out@.len(),
            forall|j: int| 0 <= j < k ==> (#[trigger] out@[j]).0@ != name@,
        decreases n - k,
    {
        if out[k].0 == *name {
            proof {
                assert(spec_out_has_name(out@, name@));
            }
            return true;
        }
        k = k + 1;
    }
    false
}

/// The normalized result of a passthrough request: the response status,
/// the collapsed header mapping, and the body text.
#[derive(Debug)]
pub struct HttpResponse {
    pub status: u16,
    pub headers: Vec<(String, String)>,
    pub body: String,
}

/// Shapes a received response for the caller: the status and body are
/// relayed unchanged, and the headers are collapsed to one value per
/// name as `collapse_headers` states — last value wins, a non-text
/// value becomes the empty string.
pub fn build_response(status: u16, raw_headers: Vec<(String, Option<String>)>, body: String) -> (r:
    HttpResponse)
    ensures
        r.status == status,
        r.body == body,
        forall|j1: int, j2: int|
            0 <= j1 < j2 < r.headers@.len() ==> (#[trigger] r.headers@[j1]).0@ != (
            #[trigger] r.headers@[j2]).0@,
        forall|i: int|
            0 <= i < raw_headers@.len() ==> spec_out_has_name(
                r.headers@,
                (#[trigger] raw_headers@[i]).0@,
            ),
        forall|j: int|
            0 <= j < r.headers@.len() ==> spec_raw_has_name(
                raw_headers@,
                (#[trigger] r.headers@[j]).0@,
            ),
        forall|j: int, i: int|
            0 <= j < r.headers@.len() && 0 <= i < raw_headers@.len() && (#[trigger] r.headers@[j]).0@
                == (#[trigger] raw_headers@[i]).0@ && spec_is_last_occurrence(raw_headers@, i)
                ==> r.headers@[j].1@ == spec_header_text(raw_headers@[i].1),
{
    let headers = collapse_headers(&raw_headers);
    HttpResponse { status, headers, body }
}

} // verus!
