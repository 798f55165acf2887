//! The request sent for a table and what its reply is turned into.
use vstd::prelude::*;
use vstd::string::*;
use crate::text::{chars_of, decimal, push_chars, push_decimal, push_text};

verus! {

broadcast use vstd::string::group_string_axioms;

/// `s` without the `/` characters at its end.
pub open spec fn trim_trailing_slashes(s: Seq<char>) -> Seq<char>
    decreases s.len(),
{
    if s.len() > 0 && s.last() == '/' {
        trim_trailing_slashes(s.drop_last())
    } else {
        s
    }
}

/// The address that selects every row of `table` from the service at `base`.
pub open spec fn table_url(base: Seq<char>, table: Seq<char>) -> Seq<char> {
    trim_trailing_slashes(base) + "/rest/v1/"@ + table + "?select=*"@
}

/// The address that selects every row of `table` from the service at `base`:
/// `base` without trailing slashes, then `/rest/v1/`, the table, `?select=*`.
pub fn api_url(base: &str, table: &str) -> (url: String)
    ensures
        url@ == table_url(base@, table@),
{
    let chars = chars_of(base);
    let mut end = chars.len();
    proof {
        assert(chars@.take(end as int) =~= chars@);
    }
    while end > 0 && chars[end - 1] == '/'
        invariant
            end <= chars.len(),
            chars@ == base@,
            trim_trailing_slashes(base@) == trim_trailing_slashes(chars@.take(end as int)),
        decreases end,
    {
        proof {
            assert(chars@.take(end as int).drop_last() =~= chars@.take(end - 1));
        }
        end = end - 1;
    }
    let mut url = String::new();
    push_chars(&mut url, &chars, 0, end);
    proof {
        assert(Seq::<char>::empty() + chars@.subrange(0, end as int) =~= chars@.take(end as int));
    }
    push_text(&mut url, "/rest/v1/");
    push_text(&mut url, table);
    push_text(&mut url, "?select=*");
    url
}

/// The headers sent with the request, as name and value.
pub open spec fn header_list(key: Seq<char>) -> Seq<(Seq<char>, Seq<char>)> {
    seq![
        ("apikey"@, key),
        ("Authorization"@, "Bearer "@ + key),
        ("Content-Type"@, "application/json"@),
        ("Prefer"@, "return=representation"@),
    ]
}

/// The headers sent with the request: the key itself, the key as a bearer
/// token, the content type and the preference for returned rows.
pub fn request_headers(key: &str) -> (headers: Vec<(String, String)>)
    ensures
        headers@.len() == 4,
        forall|i: int|
            0 <= i < 4 ==> (#[trigger] headers@[i].0@, headers@[i].1@) == header_list(key@)[i],
{
    let mut bearer = String::from_str("Bearer ");
    push_text(&mut bearer, key);
    let mut headers: Vec<(String, String)> = Vec::new();
    headers.push((String::from_str("apikey"), String::from_str(key)));
    headers.push((String::from_str("Authorization"), bearer));
    headers.push((String::from_str("Content-Type"), String::from_str("application/json")));
    headers.push((String::from_str("Prefer"), String::from_str("return=representation")));
    headers
}

/// A request for the rows of a table: where to send it and its headers.
pub struct FetchRequest {
    pub url: String,
    pub headers: Vec<(String, String)>,
}

/// The request for every row of `table` at `base`, authorised by `key`.
pub fn fetch_request(base: &str, key: &str, table: &str) -> (req: FetchRequest)
    ensures
        req.url@ == table_url(base@, table@),
        req.headers@.len() == 4,
        forall|i: int|
            0 <= i < 4 ==> (#[trigger] req.headers@[i].0@, req.headers@[i].1@) == header_list(key@)[i],
{
    FetchRequest { url: api_url(base, table), headers: request_headers(key) }
}

/// What came back for a request.
pub enum Reply {
    /// A response with its status code and its body, or the message of the
    /// error met while reading the body.
    Received { status: u16, body: Result<String, String> },
    /// The message of the error met while connecting or sending.
    Unreachable(String),
}

/// The reason phrase that the `http` crate gives a status code; `None` for a
/// code that it does not know or that is no status code.
pub uninterp spec fn canonical_reason(code: u16) -> Option<Seq<char>>;

/// `StatusCode::canonical_reason` of the `http` crate (reexported by
/// `reqwest`), for the status code `code`. Claimed: the phrase is
/// `canonical_reason(code)`, and there is none exactly where that is `None`.
#[verifier::external_body]
fn reason_phrase(code: u16) -> (r: Option<String>)
    ensures
        match r {
            Some(t) => canonical_reason(code) == Some(t@),
            None => canonical_reason(code) is None,
        },
{
    match reqwest::StatusCode::from_u16(code) {
        Ok(status) => status.canonical_reason().map(String::from),
        Err(_) => None,
    }
}

/// A status code in 200..=299.
pub open spec fn is_success(status: u16) -> bool {
    200 <= status < 300
}

/// How a status code is displayed: the number and its reason phrase.
pub open spec fn status_line(status: u16) -> Seq<char> {
    decimal(status as nat) + " "@ + match canonical_reason(status) {
        Some(r) => r,
        None => "<unknown status code>"@,
    }
}

/// The body of a successful reply, or the message that reports the failure.
pub open spec fn reply_outcome(status: u16, body: Result<Seq<char>, Seq<char>>) -> Result<
    Seq<char>,
    Seq<char>,
> {
    match body {
        Ok(b) => if is_success(status) {
            Ok(b)
        } else {
            Err("HTTP "@ + status_line(status) + ": "@ + b)
        },
        Err(e) => Err("Error: "@ + e),
    }
}

/// The view of a text result.
pub open spec fn result_view(r: Result<String, String>) -> Result<Seq<char>, Seq<char>> {
    match r {
        Ok(t) => Ok(t@),
        Err(e) => Err(e@),
    }
}

/// The body of a reply with a success status, or the message reporting what
/// went wrong: `HTTP <status>: <body>` for another status, `Error: ...` when
/// the body could not be read, `Connection error: ...` when nothing came back.
pub fn outcome(reply: Reply) -> (r: Result<String, String>)
    ensures
        match reply {
            Reply::Received { status, body } => result_view(r) == reply_outcome(status, result_view(body)),
            Reply::Unreachable(e) => result_view(r) == Err::<Seq<char>, Seq<char>>("Connection error: "@ + e@),
        },
{
    match reply {
        Reply::Received { status, body } => match body {
            Ok(b) => if 200 <= status && status < 300 {
                Ok(b)
            } else {
                let mut m = String::from_str("HTTP ");
                push_decimal(&mut m, status as usize);
                push_text(&mut m, " ");
                match reason_phrase(status) {
                    Some(r) => push_text(&mut m, r.as_str()),
                    None => push_text(&mut m, "<unknown status code>"),
                }
                push_text(&mut m, ": ");
                push_text(&mut m, b.as_str());
                proof {
                    let line = status_line(status);
                    assert(m@ =~= "HTTP "@ + line + ": "@ + b@);
                }
                Err(m)
            },
            Err(e) => {
                let mut m = String::from_str("Error: ");
                push_text(&mut m, e.as_str());
                Err(m)
            },
        },
        Reply::Unreachable(e) => {
            let mut m = String::from_str("Connection error: ");
            push_text(&mut m, e.as_str());
            Err(m)
        },
    }
}

} // verus!
