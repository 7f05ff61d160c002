//! The request-to-response core of the lookup service.
//!
//! A request's path is stripped of every leading `/` and read as an IP
//! address. An empty remainder or one that is no IP literal is answered
//! directly with a `400` reply; otherwise the caller is told which
//! address to look up, and [`lookup_reply`] turns the outcome of that
//! lookup into the final reply: `500` when the reader failed, `200` with
//! the record's JSON text and a `Last-Modified` header when it succeeded.
//!
//! Every reply carries `Content-Type: application/json`, and carries the
//! configured `Access-Control-Allow-Origin` value exactly when one is
//! configured, whatever the status.

use vstd::prelude::*;

use crate::ip::{chars_of, parse_ip_chars, spec_parse_ip, IpAddress};

verus! {

/// Options modifying how the lookup service responds to HTTP requests.
pub struct Options {
    /// `Access-Control-Allow-Origin` header value, for controlling CORS;
    /// `None` leaves the header off every reply.
    pub cors_header: Option<String>,
}

impl Default for Options {
    /// By default every origin is allowed.
    fn default() -> (r: Options)
        ensures opt_view(r.cors_header) == Some("*"@),
    {
        Options { cors_header: Some(String::from_str("*")) }
    }
}

/// An HTTP reply as this core shapes it: a status code, the three
/// headers it ever writes, and the body text.
pub struct Response {
    /// Status code: 200, 400 or 500.
    pub status: u16,
    /// `Content-Type` header value; always `application/json`.
    pub content_type: String,
    /// `Access-Control-Allow-Origin` header value, if one is configured.
    pub cors_header: Option<String>,
    /// `Last-Modified` header value, only on a successful lookup.
    pub last_modified: Option<String>,
    /// The body: an error object, or the record's JSON text.
    pub body: String,
}

/// The mathematical image of a [`Response`].
pub struct ResponseView {
    pub status: u16,
    pub content_type: Seq<char>,
    pub cors_header: Option<Seq<char>>,
    pub last_modified: Option<Seq<char>>,
    pub body: Seq<char>,
}

impl View for Response {
    type V = ResponseView;

    open spec fn view(&self) -> ResponseView {
        ResponseView {
            status: self.status,
            content_type: self.content_type@,
            cors_header: opt_view(self.cors_header),
            last_modified: opt_view(self.last_modified),
            body: self.body@,
        }
    }
}

/// What a request asks of the caller: a finished reply, or a database
/// query for the address the path named.
pub enum LookupStep {
    Reply(Response),
    Query(IpAddress),
}

/// The mathematical image of a [`LookupStep`].
pub enum StepView {
    Reply(ResponseView),
    Query(IpAddress),
}

impl View for LookupStep {
    type V = StepView;

    open spec fn view(&self) -> StepView {
        match self {
            LookupStep::Reply(r) => StepView::Reply(r@),
            LookupStep::Query(ip) => StepView::Query(*ip),
        }
    }
}

/// The view of an optional string.
pub open spec fn opt_view(o: Option<String>) -> Option<Seq<char>> {
    match o {
        Some(s) => Some(s@),
        None => None,
    }
}

/// The body shape of every error reply.
pub open spec fn spec_json_error(msg: Seq<char>) -> Seq<char> {
    "{\"error\": \""@ + msg + "\"}"@
}

/// The reply to a path with no IP text left after the slashes.
pub open spec fn missing_msg() -> Seq<char> {
    "missing IP query in path, try /192.168.1.1"@
}

/// The reply to a path that is not an IP literal.
pub open spec fn invalid_msg() -> Seq<char> {
    "could not parse invalid IP address"@
}

/// The reply to a failed database lookup, whatever its cause.
pub open spec fn not_found_msg() -> Seq<char> {
    "IP not found"@
}

/// The content type of every reply.
pub open spec fn json_content_type() -> Seq<char> {
    "application/json"@
}

/// An error reply: the given status, the fixed error body for `msg`,
/// no `Last-Modified`, and the configured CORS value.
pub open spec fn spec_error_response(status: u16, msg: Seq<char>, cors: Option<Seq<char>>)
    -> ResponseView
{
    ResponseView {
        status,
        content_type: json_content_type(),
        cors_header: cors,
        last_modified: None,
        body: spec_json_error(msg),
    }
}

/// A success reply: `200`, the record's JSON text as the body, the
/// reader's load time as `Last-Modified`, and the configured CORS value.
pub open spec fn spec_ok_response(payload: Seq<char>, load_time: Seq<char>,
    cors: Option<Seq<char>>) -> ResponseView
{
    ResponseView {
        status: 200,
        content_type: json_content_type(),
        cors_header: cors,
        last_modified: Some(load_time),
        body: payload,
    }
}

/// Where the run of leading `/` characters ends.
pub open spec fn slash_run_end(s: Seq<char>, i: int) -> int
    recommends 0 <= i <= s.len(),
    decreases s.len() - i when 0 <= i <= s.len()
{
    if i < s.len() && s[i] == '/' {
        slash_run_end(s, i + 1)
    } else {
        i
    }
}

/// The path with every leading `/` stripped.
pub open spec fn spec_strip(s: Seq<char>) -> Seq<char> {
    s.subrange(slash_run_end(s, 0), s.len() as int)
}

/// What [`lookup`] decides for a path: strip the slashes; answer `400`
/// when nothing is left or the rest is no IP literal; otherwise name the
/// address to query.
pub open spec fn spec_route(path: Seq<char>, cors: Option<Seq<char>>) -> StepView {
    let rest = spec_strip(path);
    if rest.len() == 0 {
        StepView::Reply(spec_error_response(400, missing_msg(), cors))
    } else {
        match spec_parse_ip(rest) {
            None => StepView::Reply(spec_error_response(400, invalid_msg(), cors)),
            Some(ip) => StepView::Query(ip),
        }
    }
}

/// What [`lookup_reply`] makes of a lookup outcome: `500` with the fixed
/// error body when the reader failed, `200` with the record's JSON text
/// and the load time otherwise.
pub open spec fn spec_reply(payload: Option<Seq<char>>, load_time: Seq<char>,
    cors: Option<Seq<char>>) -> ResponseView
{
    match payload {
        None => spec_error_response(500, not_found_msg(), cors),
        Some(p) => spec_ok_response(p, load_time, cors),
    }
}

fn clone_opt_string(o: &Option<String>) -> (r: Option<String>)
    ensures opt_view(r) == opt_view(*o),
{
    match o {
        Some(s) => Some(s.clone()),
        None => None,
    }
}

fn err_json(msg: &str) -> (r: String)
    ensures r@ == spec_json_error(msg@),
{
    let head = String::from_str("{\"error\": \"");
    let with_msg = head.concat(msg);
    let full = with_msg.concat("\"}");
    proof {
        assert(full@ =~= spec_json_error(msg@));
    }
    full
}

fn error_response(status: u16, msg: &str, opts: &Options) -> (r: Response)
    ensures r@ == spec_error_response(status, msg@, opt_view(opts.cors_header)),
{
    Response {
        status,
        content_type: String::from_str("application/json"),
        cors_header: clone_opt_string(&opts.cors_header),
        last_modified: None,
        body: err_json(msg),
    }
}

fn slash_run_end_at(v: &Vec<char>, i: usize) -> (r: usize)
    requires i <= v.len(),
    ensures
        r as int == slash_run_end(v@, i as int),
        i <= r <= v.len(),
    decreases v.len() - i
{
    if i < v.len() && v[i] == '/' {
        slash_run_end_at(v, i + 1)
    } else {
        i
    }
}

/// Decides a request: reads the path, strips every leading `/`, and
/// either answers at once (`400` for an empty or unparseable remainder)
/// or names the IP address whose record the caller must fetch.
///
/// The reply is a pure image of the path and the options: an empty
/// remainder gets the fixed `missing` body, a non-IP remainder the fixed
/// `invalid` body, both as `400`; a well-formed IP literal is passed on.
pub fn lookup(path: &str, opts: &Options) -> (step: LookupStep)
    ensures step@ == spec_route(path@, opt_view(opts.cors_header)),
{
    let v = chars_of(path);
    let k = slash_run_end_at(&v, 0);
    let mut rest: Vec<char> = Vec::new();
    let mut i = k;
    while i < v.len()
        invariant
            k <= i <= v.len(),
            rest@ == v@.subrange(k as int, i as int),
        decreases v.len() - i
    {
        rest.push(v[i]);
        proof {
            assert(rest@ =~= v@.subrange(k as int, i + 1));
        }
        i = i + 1;
    }
    proof {
        assert(rest@ =~= spec_strip(path@));
    }
    if rest.len() == 0 {
        return LookupStep::Reply(error_response(400,
            "missing IP query in path, try /192.168.1.1", opts));
    }
    match parse_ip_chars(&rest) {
        Some(ip) => LookupStep::Query(ip),
        None => LookupStep::Reply(error_response(400,
            "could not parse invalid IP address", opts)),
    }
}

/// Shapes the final reply from a lookup outcome: the record's JSON text
/// when the reader returned one, `None` for a failure of any kind.
///
/// A failure is answered `500` with the fixed `IP not found` body and no
/// `Last-Modified`; a record is answered `200` with the given text as
/// the body and the reader's load time as `Last-Modified`.
pub fn lookup_reply(payload: Option<String>, load_time: &str, opts: &Options) -> (r: Response)
    ensures r@ == spec_reply(opt_view(payload), load_time@, opt_view(opts.cors_header)),
{
    match payload {
        None => error_response(500, "IP not found", opts),
        Some(p) => Response {
            status: 200,
            content_type: String::from_str("application/json"),
            cors_header: clone_opt_string(&opts.cors_header),
            last_modified: Some(load_time.to_owned()),
            body: p,
        },
    }
}

/// The CORS header is independent of the status: every reply this core
/// shapes carries exactly the configured value, on `400` routes as on
/// `500` and `200` lookup outcomes.
pub proof fn lemma_cors_independent(path: Seq<char>, payload: Option<Seq<char>>,
    load_time: Seq<char>, cors: Option<Seq<char>>)
    ensures
        (spec_route(path, cors) matches StepView::Reply(r) ==> r.cors_header == cors),
        spec_reply(payload, load_time, cors).cors_header == cors,
{
}

/// Replies are a function of the request and the reader's answer alone:
/// the same path under the same options routes the same way, and the
/// same outcome under the same load time and options is answered with
/// the identical reply, so repeating a request against an unchanged
/// reader repeats the response.
pub proof fn lemma_idempotent(path: Seq<char>, payload: Option<Seq<char>>,
    load_time: Seq<char>, cors: Option<Seq<char>>, s1: StepView, s2: StepView,
    r1: ResponseView, r2: ResponseView)
    requires
        s1 == spec_route(path, cors),
        s2 == spec_route(path, cors),
        r1 == spec_reply(payload, load_time, cors),
        r2 == spec_reply(payload, load_time, cors),
    ensures
        s1 == s2,
        r1 == r2,
{
}

/// What each lookup outcome is answered with: a failed lookup gets
/// `500` and the fixed error body, never a `Last-Modified`; a record
/// gets `200`, its own JSON text as the body, and the load time.
pub proof fn lemma_reply_fields(payload: Option<Seq<char>>, load_time: Seq<char>,
    cors: Option<Seq<char>>)
    ensures
        payload is None ==> spec_reply(payload, load_time, cors)
            == spec_error_response(500, not_found_msg(), cors),
        (payload matches Some(p) ==> spec_reply(payload, load_time, cors)
            == spec_ok_response(p, load_time, cors)),
        spec_reply(payload, load_time, cors).content_type == json_content_type(),
{
}

/// What each kind of path is routed to: an all-slash or empty path is
/// refused with the fixed `missing` body, a remainder that is no IP
/// literal with the fixed `invalid` body, and an IP literal becomes a
/// query for exactly the address it writes.
pub proof fn lemma_route_fields(path: Seq<char>, cors: Option<Seq<char>>)
    ensures
        spec_strip(path).len() == 0 ==> spec_route(path, cors)
            == StepView::Reply(spec_error_response(400, missing_msg(), cors)),
        spec_strip(path).len() > 0 && spec_parse_ip(spec_strip(path)) is None
            ==> spec_route(path, cors)
                == StepView::Reply(spec_error_response(400, invalid_msg(), cors)),
        spec_strip(path).len() > 0 ==> (spec_parse_ip(spec_strip(path)) matches Some(ip)
            ==> spec_route(path, cors) == StepView::Query(ip)),
{
}

} // verus!
