//! The line protocol: routing one request line to the index, and framing the
//! reply.
//!
//! A request line is `<METHOD> <PATH> <VERSION>`. Only `GET` is served, on
//! `/`, `/search?q=<query>` and `/document?docID=<id>`. A well-formed id that
//! names no document is answered with status 404, like an unknown path.
use crate::decimal::{decimal, parse_usize, parsed_usize, push_decimal};
use crate::inverted_index::{is_search_result, Corpus, DocReference, InvertedIndex};
use crate::text::{chars_of, split_words, string_of, string_views, terms_of, words};
use std::string::FromUtf8Error;
use vstd::prelude::*;
use vstd::string::StringExecFns;

verus! {

/// The status of a reply.
#[derive(Clone, Copy, Debug, PartialEq, Eq)]
pub enum HttpStatus {
    Success,
    BadRequest,
    NotFound,
}

/// The reply to `GET /`.
#[derive(Clone, Debug)]
pub struct WelcomeResponse {
    pub message: String,
    pub endpoints: Vec<String>,
}

/// The reply to a search.
#[derive(Clone, Debug)]
pub struct SearchResponse {
    pub query: String,
    pub total_results: usize,
    pub results: Vec<DocReference>,
}

/// The reply to a document lookup that found the document.
#[derive(Clone, Debug)]
pub struct DocumentResponse {
    pub document_id: usize,
    pub filename: String,
    pub content: String,
}

/// The reply to a request that could not be served.
#[derive(Clone, Debug)]
pub struct ErrorResponse {
    pub error: String,
}

/// The body of a reply.
#[derive(Clone, Debug)]
pub enum Response {
    Help(WelcomeResponse),
    Search(SearchResponse),
    Document(DocumentResponse),
    Error(ErrorResponse),
}

/// The error `urlencoding::decode` returns where the decoded bytes are not
/// UTF-8; carried through opaque.
#[verifier::external_type_specification]
#[verifier::external_body]
pub struct ExFromUtf8Error(FromUtf8Error);

/// The percent-decoding of a string read as UTF-8, or `None` where the
/// decoded bytes are not UTF-8.
pub uninterp spec fn url_decoded(s: Seq<char>) -> Option<Seq<char>>;

/// Relies on `urlencoding::decode`: replaces each `%XX` escape by its byte
/// (leaving `+` and malformed escapes as they are) and reads the bytes as
/// UTF-8, failing where they are not.
#[verifier::external_body]
fn url_decode(s: &str) -> (r: Result<String, FromUtf8Error>)
    ensures
        match r {
            Ok(v) => url_decoded(s@) == Some(v@),
            Err(_) => url_decoded(s@) is None,
        },
{
    match urlencoding::decode(s) {
        Ok(v) => Ok(v.into_owned()),
        Err(e) => Err(e),
    }
}

/// The view of an optional string.
pub open spec fn opt_view(o: Option<String>) -> Option<Seq<char>> {
    match o {
        Some(s) => Some(s@),
        None => None,
    }
}

/// Whether `s` begins with `p`.
pub open spec fn starts_with(s: Seq<char>, p: Seq<char>) -> bool {
    p.len() <= s.len() && s.subrange(0, p.len() as int) == p
}

/// Whether `r` is an error reply with this status and message.
pub open spec fn is_error(r: (HttpStatus, Response), status: HttpStatus, message: Seq<char>) -> bool {
    r.0 == status && (r.1 matches Response::Error(e) && e.error@ == message)
}

/// Whether `r` is the welcome reply, which lists the two routes.
pub open spec fn is_welcome(r: (HttpStatus, Response)) -> bool {
    r.0 == HttpStatus::Success && (r.1 matches Response::Help(w) && w.message@
        == "Welcome to the Inverted Index Search Server"@ && string_views(w.endpoints@) == seq![
        "/search?q=<query>"@,
        "/document?docID=<id>"@,
    ])
}

/// Whether `r` replies to a search whose decoded query is `decoded`: the
/// result of the search over `docs`, or status 400 where the query did not
/// decode. A search without results is still a success.
pub open spec fn search_reply(
    decoded: Option<Seq<char>>,
    docs: Corpus,
    r: (HttpStatus, Response),
) -> bool {
    match decoded {
        None => is_error(r, HttpStatus::BadRequest, "Invalid Search Query"@),
        Some(q) => r.0 == HttpStatus::Success && (r.1 matches Response::Search(s) && s.query@ == q
            && s.total_results == s.results@.len() && is_search_result(
            s.results@,
            docs,
            terms_of(q),
        )),
    }
}

/// The document id that a decoded lookup argument names.
pub open spec fn requested_id(decoded: Option<Seq<char>>) -> Option<usize> {
    match decoded {
        Some(a) => parsed_usize(a),
        None => None,
    }
}

/// Whether `r` replies to a lookup of document `id` over `docs`: the
/// document, status 404 where no document has that id, or status 400 where
/// there is no id.
pub open spec fn document_reply(id: Option<usize>, docs: Corpus, r: (HttpStatus, Response)) -> bool {
    match id {
        None => is_error(r, HttpStatus::BadRequest, "Invalid Document ID"@),
        Some(i) => if i < docs.len() {
            r.0 == HttpStatus::Success && (r.1 matches Response::Document(d) && d.document_id == i
                && d.filename@ == docs[i as int].0 && d.content@ == docs[i as int].1)
        } else {
            is_error(r, HttpStatus::NotFound, "No file with specified docID was found"@)
        },
    }
}

/// Whether `r` is the reply to the request line `line` over `docs`.
pub open spec fn reply_to(line: Seq<char>, docs: Corpus, r: (HttpStatus, Response)) -> bool {
    let parts = words(line);
    if parts.len() < 3 {
        is_error(r, HttpStatus::BadRequest, "Invalid Request"@)
    } else if parts[0] != "GET"@ {
        is_error(r, HttpStatus::BadRequest, "Invalid Request Method"@)
    } else if parts[1] == "/"@ {
        is_welcome(r)
    } else if starts_with(parts[1], "/search?q="@) {
        search_reply(url_decoded(parts[1].skip("/search?q="@.len() as int)), docs, r)
    } else if starts_with(parts[1], "/document?docID="@) {
        document_reply(
            requested_id(url_decoded(parts[1].skip("/document?docID="@.len() as int))),
            docs,
            r,
        )
    } else {
        is_error(r, HttpStatus::NotFound, "404 Not Found"@)
    }
}

/// An error reply.
fn error_reply(status: HttpStatus, message: &str) -> (r: (HttpStatus, Response))
    ensures
        is_error(r, status, message@),
{
    (status, Response::Error(ErrorResponse { error: String::from_str(message) }))
}

/// Whether `cs` spells `lit`.
fn same_chars(cs: &Vec<char>, lit: &str) -> (r: bool)
    ensures
        r == (cs@ == lit@),
{
    let p = chars_of(lit);
    if p.len() != cs.len() {
        return false;
    }
    let mut i: usize = 0;
    while i < p.len()
        invariant
            p@ == lit@,
            p@.len() == cs@.len(),
            i <= p@.len(),
            forall|j: int| 0 <= j < i ==> cs@[j] == p@[j],
        decreases p@.len() - i,
    {
        if cs[i] != p[i] {
            return false;
        }
        i = i + 1;
    }
    assert(cs@ =~= p@);
    true
}

/// What follows `prefix` in `cs`, where `cs` begins with it.
fn strip_prefix(cs: &Vec<char>, prefix: &str) -> (r: Option<String>)
    ensures
        match r {
            Some(v) => starts_with(cs@, prefix@) && v@ == cs@.skip(prefix@.len() as int),
            None => !starts_with(cs@, prefix@),
        },
{
    let p = chars_of(prefix);
    if p.len() > cs.len() {
        return None;
    }
    let mut i: usize = 0;
    while i < p.len()
        invariant
            p@ == prefix@,
            p@.len() <= cs@.len(),
            i <= p@.len(),
            forall|j: int| 0 <= j < i ==> cs@[j] == p@[j],
        decreases p@.len() - i,
    {
        if cs[i] != p[i] {
            assert(cs@.subrange(0, p@.len() as int)[i as int] != p@[i as int]);
            return None;
        }
        i = i + 1;
    }
    assert(cs@.subrange(0, p@.len() as int) =~= p@);
    let rest = string_of(cs, p.len(), cs.len());
    assert(rest@ =~= cs@.skip(prefix@.len() as int));
    Some(rest)
}

/// The reply to a search whose query decoded to `decoded` (`None` where it
/// did not decode).
pub fn search_response(decoded: Option<String>, index: &InvertedIndex) -> (r: (
    HttpStatus,
    Response,
))
    requires
        index.wf(),
    ensures
        search_reply(opt_view(decoded), index@, r),
{
    match decoded {
        Some(query) => {
            let results = index.search(query.as_str());
            let total_results = results.len();
            (HttpStatus::Success, Response::Search(SearchResponse { query, total_results, results }))
        },
        None => error_reply(HttpStatus::BadRequest, "Invalid Search Query"),
    }
}

/// The reply to `/search?q=<query>`, given the still-encoded query.
pub fn handle_search_request(query: &str, index: &InvertedIndex) -> (r: (HttpStatus, Response))
    requires
        index.wf(),
    ensures
        search_reply(url_decoded(query@), index@, r),
{
    let decoded = match url_decode(query) {
        Ok(q) => Some(q),
        Err(_) => None,
    };
    search_response(decoded, index)
}

/// The reply to a document lookup whose argument decoded to `decoded`
/// (`None` where it did not decode).
pub fn document_response(decoded: Option<String>, index: &InvertedIndex) -> (r: (
    HttpStatus,
    Response,
))
    ensures
        document_reply(requested_id(opt_view(decoded)), index@, r),
{
    let id = match decoded {
        Some(arg) => parse_usize(arg.as_str()),
        None => None,
    };
    match id {
        Some(doc_id) => match index.get_document(doc_id) {
            Some(document) => (
                HttpStatus::Success,
                Response::Document(
                    DocumentResponse {
                        document_id: doc_id,
                        filename: document.name,
                        content: document.content,
                    },
                ),
            ),
            None => error_reply(HttpStatus::NotFound, "No file with specified docID was found"),
        },
        None => error_reply(HttpStatus::BadRequest, "Invalid Document ID"),
    }
}

/// The reply to `/document?docID=<id>`, given the still-encoded id.
pub fn handle_document_request(query: &str, index: &InvertedIndex) -> (r: (HttpStatus, Response))
    ensures
        document_reply(requested_id(url_decoded(query@)), index@, r),
{
    let decoded = match url_decode(query) {
        Ok(arg) => Some(arg),
        Err(_) => None,
    };
    document_response(decoded, index)
}

/// The reply to one request line.
pub fn process_request(request_line: &str, index: &InvertedIndex) -> (r: (HttpStatus, Response))
    requires
        index.wf(),
    ensures
        reply_to(request_line@, index@, r),
{
    let cs = chars_of(request_line);
    let parts = split_words(&cs);
    proof {
        assert(parts@.len() == words(request_line@).len());
        assert forall|i: int| 0 <= i < parts@.len() implies #[trigger] parts@[i]@ == words(
            request_line@,
        )[i] by {
            assert(crate::text::char_views(parts@)[i] == parts@[i]@);
        }
    }
    if parts.len() < 3 {
        return error_reply(HttpStatus::BadRequest, "Invalid Request");
    }
    if !same_chars(&parts[0], "GET") {
        return error_reply(HttpStatus::BadRequest, "Invalid Request Method");
    }
    let uri = &parts[1];
    if same_chars(uri, "/") {
        let endpoints = vec![
            String::from_str("/search?q=<query>"),
            String::from_str("/document?docID=<id>"),
        ];
        proof {
            assert(string_views(endpoints@) =~= seq![
                "/search?q=<query>"@,
                "/document?docID=<id>"@,
            ]);
        }
        return (
            HttpStatus::Success,
            Response::Help(
                WelcomeResponse {
                    message: String::from_str("Welcome to the Inverted Index Search Server"),
                    endpoints,
                },
            ),
        );
    }
    match strip_prefix(uri, "/search?q=") {
        Some(query) => {
            return handle_search_request(query.as_str(), index);
        },
        None => {},
    }
    match strip_prefix(uri, "/document?docID=") {
        Some(arg) => {
            return handle_document_request(arg.as_str(), index);
        },
        None => {},
    }
    error_reply(HttpStatus::NotFound, "404 Not Found")
}

/// The status line of a reply.
pub open spec fn status_line(status: HttpStatus) -> Seq<char> {
    match status {
        HttpStatus::Success => "HTTP/1.1 200 OK"@,
        HttpStatus::BadRequest => "HTTP/1.1 400 BAD REQUEST"@,
        HttpStatus::NotFound => "HTTP/1.1 404 NOT FOUND"@,
    }
}

/// The text of a reply: status line, content type and length headers (the
/// length counts the bytes of `body`), a blank line, then `body`.
pub open spec fn framed(status: HttpStatus, body: Seq<char>, body_bytes: nat) -> Seq<char> {
    status_line(status) + "\r\nContent-Type: application/json\r\nContent-Length: "@ + decimal(
        body_bytes,
    ) + "\r\n\r\n"@ + body
}

/// Frames a JSON `body` as a reply with the given status.
pub fn frame_response(status: HttpStatus, body: &str) -> (r: String)
    ensures
        r@ == framed(status, body@, body.len() as nat),
{
    let mut out = match status {
        HttpStatus::Success => String::from_str("HTTP/1.1 200 OK"),
        HttpStatus::BadRequest => String::from_str("HTTP/1.1 400 BAD REQUEST"),
        HttpStatus::NotFound => String::from_str("HTTP/1.1 404 NOT FOUND"),
    };
    out.append("\r\nContent-Type: application/json\r\nContent-Length: ");
    push_decimal(&mut out, body.len());
    out.append("\r\n\r\n");
    out.append(body);
    out
}

} // verus!
