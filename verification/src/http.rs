//! Requests and responses of the browser host.

use vstd::prelude::*;
#[allow(unused_imports)]
use vstd::utf8::{decode_utf8, valid_utf8};

#[allow(unused_imports)]
use crate::anon_session::{Headers, origin_allowed};
use crate::anon_session::{check_origin, extract_sid, is_valid_sid_format};
#[allow(unused_imports)]
use crate::anon_store::{age, cookie_sid, header_seen};
#[allow(unused_imports)]
use crate::json::{field_models, json_string, object_text};
use crate::json::{field, quoted, write_object};
use crate::ordered::OrderedMap;
#[allow(unused_imports)]
use crate::ordered::{
    OrderedKey, law_put_then_get, lemma_viewed_lookup, lemma_viewed_put, lemma_with_entry_sorted,
    lookup, sorted, viewed, with_entry,
};
use crate::text::{
    ascii_lower, byte_count, chars_of, contains_text, decimal_text, find_from, lines, parse_usize,
    same_text, size_text, split_once, substring, take_chars, trimmed, utf8_text, words,
};
#[allow(unused_imports)]
use crate::text::{
    begins, byte_len, decimal, ends, find_char, find_text, first_chars, holds_text, lacks,
    law_texts_hold_their_parts, lemma_find_char, lemma_find_char_is, lemma_find_text, lines_of,
    lower_text, parse_natural, texts, trim, words_of,
};

verus! {

pub const MAX_REQUEST_HEADER_BYTES: usize = 64 * 1024;

pub const MAX_REQUEST_BODY_BYTES: usize = 8 * 1024 * 1024;

pub const MAX_AGENT_EVENT_BYTES: usize = 256 * 1024;

pub const MAX_AGENT_STREAM_BYTES: usize = 2 * 1024 * 1024;

pub const MAX_ACTIVE_CONNECTIONS: usize = 256;

pub const MAX_GLOBAL_CONCURRENT_AGENTS: usize = 32;

/// How long a window of the rate limit lasts, in nanoseconds.
pub const RATE_WINDOW_NANOS: u128 = 60_000_000_000;

/// How many requests a window of the rate limit lets through.
pub const RATE_LIMIT: usize = 60;

// ---------------------------------------------------------------------------
// Reading a request
// ---------------------------------------------------------------------------

/// Whether bytes end in an empty line.
pub open spec fn ends_in_blank_line(head: Seq<u8>) -> bool {
    let n = head.len();
    ||| n >= 2 && head[n - 2] == 10 && head[n - 1] == 10
    ||| n >= 4 && head[n - 4] == 13 && head[n - 3] == 10 && head[n - 2] == 13 && head[n - 1] == 10
}

/// Takes one more line of a request's head and says whether it was the last.
pub fn take_header_line(head: &mut Vec<u8>, line: &Vec<u8>) -> (r: Result<bool, String>)
    ensures
        final(head)@ == old(head)@ + line@,
        match r {
            Ok(done) => {
                &&& line@.len() > 0
                &&& final(head)@.len() <= MAX_REQUEST_HEADER_BYTES
                &&& done == ends_in_blank_line(final(head)@)
            },
            Err(message) => if line@.len() == 0 {
                message@ == "request ended before headers"@
            } else {
                final(head)@.len() > MAX_REQUEST_HEADER_BYTES && message@
                    == "request headers are too large"@
            },
        },
{
    if line.len() == 0 {
        assert(head@ =~= old(head)@ + line@);
        return Err("request ended before headers".to_owned());
    }
    let ghost before = head@;
    let mut i: usize = 0;
    assert(line@.take(0) =~= Seq::<u8>::empty());
    while i < line.len()
        invariant
            i <= line@.len(),
            head@ == before + line@.take(i as int),
        decreases line@.len() - i,
    {
        head.push(line[i]);
        assert(line@.take(i + 1) =~= line@.take(i as int).push(line@[i as int]));
        i += 1;
    }
    assert(line@.take(line@.len() as int) =~= line@);
    let n: usize = head.len();
    if n > MAX_REQUEST_HEADER_BYTES {
        return Err("request headers are too large".to_owned());
    }
    let bare = n >= 2 && head[n - 2] == 10 && head[n - 1] == 10;
    let full = n >= 4 && head[n - 4] == 13 && head[n - 3] == 10 && head[n - 2] == 13 && head[n - 1]
        == 10;
    Ok(bare || full)
}

/// What the head of a request says.
#[derive(Debug)]
pub struct RequestHead {
    pub method: String,
    pub path: String,
    pub headers: OrderedMap<String, String>,
    pub content_length: usize,
}

/// What a [`RequestHead`] says.
#[verifier::ext_equal]
pub struct HeadModel {
    pub method: Seq<char>,
    pub path: Seq<char>,
    pub headers: Headers,
    pub content_length: nat,
}

impl View for RequestHead {
    type V = HeadModel;

    open spec fn view(&self) -> HeadModel {
        HeadModel {
            method: self.method@,
            path: self.path@,
            headers: viewed::<String, String>(self.headers@),
            content_length: self.content_length as nat,
        }
    }
}

/// The headers in the lines from the second to the one before `n`; a later line wins.
pub open spec fn headers_of(all: Seq<Seq<char>>, n: int) -> Headers
    decreases n,
{
    if n <= 1 {
        Seq::empty()
    } else {
        let before = headers_of(all, n - 1);
        let line = all[n - 1];
        let colon = find_char(line, ':');
        if colon < line.len() {
            with_entry::<String, Seq<char>>(
                before,
                lower_text(trim(line.take(colon))),
                trim(line.skip(colon + 1)),
            )
        } else {
            before
        }
    }
}

/// The length of the body that the headers announce.
pub open spec fn body_length(headers: Headers) -> Result<nat, Seq<char>> {
    let length = match lookup::<String, Seq<char>>(headers, "content-length"@) {
        Some(value) => parse_natural(value, usize::MAX as nat),
        None => Some(0),
    };
    match length {
        None => Err("content-length is invalid"@),
        Some(n) => if n > MAX_REQUEST_BODY_BYTES {
            Err("request body is too large"@)
        } else {
            Ok(n)
        },
    }
}

/// What the head of a request says, or what is wrong with it.
pub open spec fn head_of(bytes: Seq<u8>) -> Result<HeadModel, Seq<char>> {
    if !valid_utf8(bytes) {
        Err("request headers are not valid UTF-8"@)
    } else {
        let all = lines_of(decode_utf8(bytes));
        if all.len() == 0 {
            Err("missing request line"@)
        } else {
            let parts = words_of(all[0]);
            if parts.len() == 0 {
                Err("missing HTTP method"@)
            } else if parts.len() == 1 {
                Err("missing HTTP path"@)
            } else {
                let headers = headers_of(all, all.len() as int);
                match body_length(headers) {
                    Err(message) => Err(message),
                    Ok(content_length) => Ok(
                        HeadModel {
                            method: parts[0],
                            path: parts[1].take(find_char(parts[1], '?')),
                            headers,
                            content_length,
                        },
                    ),
                }
            }
        }
    }
}

fn read_headers(all: &Vec<String>) -> (r: OrderedMap<String, String>)
    requires
        all@.len() > 0,
    ensures
        viewed::<String, String>(r@) == headers_of(texts(all@), all@.len() as int),
{
    let ghost seen = texts(all@);
    let mut headers: OrderedMap<String, String> = OrderedMap::new();
    let mut i: usize = 1;
    assert(viewed::<String, String>(headers@) =~= headers_of(seen, 1));
    while i < all.len()
        invariant
            1 <= i <= all@.len(),
            seen == texts(all@),
            viewed::<String, String>(headers@) == headers_of(seen, i as int),
        decreases all@.len() - i,
    {
        assert(seen[i as int] == all@[i as int]@);
        match split_once(all[i].as_str(), ':') {
            Some((name, value)) => {
                let key = ascii_lower(trimmed(name.as_str()).as_str());
                let text = trimmed(value.as_str());
                proof {
                    lemma_viewed_put::<String, String>(headers@, key@, text);
                }
                headers.insert(key, text);
            },
            None => {},
        }
        i += 1;
    }
    headers
}

/// What the head of a request says.
pub fn parse_head(bytes: &Vec<u8>) -> (r: Result<RequestHead, String>)
    ensures
        match r {
            Ok(head) => head_of(bytes@) == Ok::<HeadModel, Seq<char>>(head@),
            Err(message) => head_of(bytes@) == Err::<HeadModel, Seq<char>>(message@),
        },
{
    let text = match utf8_text(bytes.as_slice()) {
        None => return Err("request headers are not valid UTF-8".to_owned()),
        Some(text) => text,
    };
    let all = lines(text.as_str());
    if all.len() == 0 {
        return Err("missing request line".to_owned());
    }
    assert(texts(all@)[0] == all@[0]@);
    let parts = words(all[0].as_str());
    if parts.len() == 0 {
        return Err("missing HTTP method".to_owned());
    }
    if parts.len() == 1 {
        return Err("missing HTTP path".to_owned());
    }
    assert(texts(parts@)[0] == parts@[0]@);
    assert(texts(parts@)[1] == parts@[1]@);
    let target = chars_of(parts[1].as_str());
    let end = find_from(&target, '?', 0);
    assert(target@.skip(0) =~= target@);
    let path = substring(&target, 0, end);
    assert(path@ =~= parts@[1]@.take(find_char(parts@[1]@, '?')));
    let headers = read_headers(&all);
    proof {
        lemma_viewed_lookup::<String, String>(headers@, "content-length"@);
    }
    let length: Option<usize> = match headers.get(&"content-length".to_owned()) {
        Some(value) => parse_usize(value.as_str()),
        None => Some(0),
    };
    let content_length: usize = match length {
        None => return Err("content-length is invalid".to_owned()),
        Some(n) => n,
    };
    if content_length > MAX_REQUEST_BODY_BYTES {
        return Err("request body is too large".to_owned());
    }
    Ok(RequestHead { method: parts[0].clone(), path, headers, content_length })
}

// ---------------------------------------------------------------------------
// Who may ask for what
// ---------------------------------------------------------------------------

/// Whether a method changes state.
pub open spec fn state_changing(method: Seq<char>) -> bool {
    method == "POST"@ || method == "PUT"@ || method == "PATCH"@ || method == "DELETE"@
}

/// What becomes of a request before its session is known.
#[derive(Debug, Clone, Copy, PartialEq, Eq, Structural)]
pub enum Admission {
    ForeignOrigin,
    SessionRequired,
    Health,
    Admitted,
}

/// What becomes of a request before its session is known.
pub open spec fn admission(head: HeadModel, allowed_origin: Seq<char>) -> Admission {
    let cookie = lookup::<String, Seq<char>>(head.headers, "cookie"@);
    if state_changing(head.method) && !origin_allowed(head.headers, allowed_origin) {
        Admission::ForeignOrigin
    } else if state_changing(head.method) && cookie_sid(cookie) is None {
        Admission::SessionRequired
    } else if head.method == "GET"@ && head.path == "/healthz"@ {
        Admission::Health
    } else {
        Admission::Admitted
    }
}

/// Whether a cookie header holds the id of a session.
fn holds_session(cookie: Option<&str>) -> (r: bool)
    ensures
        r == cookie_sid(header_seen(cookie)) is Some,
{
    match cookie {
        None => false,
        Some(header) => match extract_sid(header) {
            None => false,
            Some(sid) => is_valid_sid_format(sid.as_str()),
        },
    }
}

/// What becomes of a request before its session is known.
pub fn consider(head: &RequestHead, allowed_origin: &str) -> (r: Admission)
    ensures
        r == admission(head@, allowed_origin@),
{
    let method = head.method.as_str();
    let changing = same_text(method, "POST") || same_text(method, "PUT") || same_text(
        method,
        "PATCH",
    ) || same_text(method, "DELETE");
    if changing && !check_origin(&head.headers, allowed_origin) {
        return Admission::ForeignOrigin;
    }
    proof {
        lemma_viewed_lookup::<String, String>(head.headers@, "cookie"@);
    }
    let cookie = match head.headers.get(&"cookie".to_owned()) {
        Some(value) => Some(value.as_str()),
        None => None,
    };
    if changing && !holds_session(cookie) {
        return Admission::SessionRequired;
    }
    if same_text(method, "GET") && same_text(head.path.as_str(), "/healthz") {
        return Admission::Health;
    }
    Admission::Admitted
}

/// What a request asks for.
#[derive(Debug, Clone, Copy, PartialEq, Eq, Structural)]
pub enum Route {
    Home,
    Page,
    Script,
    Style,
    DebugModule,
    Module,
    System,
    Agent,
    AgentCancel,
    Upload,
    Files,
    Apps,
    AppOperation,
    Tabulate,
    PdfInspection,
    Jobs,
    Approval,
    Unknown,
}

/// What a method and a path ask for.
pub open spec fn route_of(method: Seq<char>, path: Seq<char>) -> Route {
    let reads = method == "GET"@ || method == "HEAD"@;
    let gets = method == "GET"@;
    let posts = method == "POST"@;
    if reads && path == "/"@ {
        Route::Home
    } else if reads && (path == "/web/"@ || path == "/web/index.html"@) {
        Route::Page
    } else if reads && path == "/web/main.js"@ {
        Route::Script
    } else if reads && path == "/web/styles.css"@ {
        Route::Style
    } else if reads && path == "/target/wasm32-unknown-unknown/debug/a_rust_vm.wasm"@ {
        Route::DebugModule
    } else if reads && path == "/api/wasm"@ {
        Route::Module
    } else if gets && path == "/api/v1/system"@ {
        Route::System
    } else if posts && path == "/api/agent"@ {
        Route::Agent
    } else if posts && path == "/api/agent/cancel"@ {
        Route::AgentCancel
    } else if posts && path == "/api/upload"@ {
        Route::Upload
    } else if gets && path == "/api/files"@ {
        Route::Files
    } else if gets && path == "/api/apps"@ {
        Route::Apps
    } else if posts && path == "/api/apps/operate"@ {
        Route::AppOperation
    } else if posts && path == "/api/tabulate"@ {
        Route::Tabulate
    } else if posts && path == "/api/pdf/inspect"@ {
        Route::PdfInspection
    } else if gets && path == "/api/jobs"@ {
        Route::Jobs
    } else if posts && path == "/api/approval"@ {
        Route::Approval
    } else {
        Route::Unknown
    }
}

/// What a method and a path ask for.
pub fn route(method: &str, path: &str) -> (r: Route)
    ensures
        r == route_of(method@, path@),
{
    let gets = same_text(method, "GET");
    let reads = gets || same_text(method, "HEAD");
    let posts = same_text(method, "POST");
    if reads && same_text(path, "/") {
        Route::Home
    } else if reads && (same_text(path, "/web/") || same_text(path, "/web/index.html")) {
        Route::Page
    } else if reads && same_text(path, "/web/main.js") {
        Route::Script
    } else if reads && same_text(path, "/web/styles.css") {
        Route::Style
    } else if reads && same_text(path, "/target/wasm32-unknown-unknown/debug/a_rust_vm.wasm") {
        Route::DebugModule
    } else if reads && same_text(path, "/api/wasm") {
        Route::Module
    } else if gets && same_text(path, "/api/v1/system") {
        Route::System
    } else if posts && same_text(path, "/api/agent") {
        Route::Agent
    } else if posts && same_text(path, "/api/agent/cancel") {
        Route::AgentCancel
    } else if posts && same_text(path, "/api/upload") {
        Route::Upload
    } else if gets && same_text(path, "/api/files") {
        Route::Files
    } else if gets && same_text(path, "/api/apps") {
        Route::Apps
    } else if posts && same_text(path, "/api/apps/operate") {
        Route::AppOperation
    } else if posts && same_text(path, "/api/tabulate") {
        Route::Tabulate
    } else if posts && same_text(path, "/api/pdf/inspect") {
        Route::PdfInspection
    } else if gets && same_text(path, "/api/jobs") {
        Route::Jobs
    } else if posts && same_text(path, "/api/approval") {
        Route::Approval
    } else {
        Route::Unknown
    }
}

/// What a method that changes state asks for is never answered without a session of the allowed
/// origin.
pub proof fn law_changes_need_an_origin_and_a_session(head: HeadModel, allowed_origin: Seq<char>)
    requires
        admission(head, allowed_origin) is Admitted,
        route_of(head.method, head.path) is Agent || route_of(head.method, head.path) is AgentCancel
            || route_of(head.method, head.path) is Upload || route_of(
            head.method,
            head.path,
        ) is AppOperation || route_of(head.method, head.path) is Tabulate || route_of(
            head.method,
            head.path,
        ) is PdfInspection || route_of(head.method, head.path) is Approval,
    ensures
        origin_allowed(head.headers, allowed_origin),
        cookie_sid(lookup::<String, Seq<char>>(head.headers, "cookie"@)) is Some,
{
}

/// How many requests of a session its window has let through.
#[derive(Debug, Clone, Copy, PartialEq, Eq, Structural)]
pub struct RateWindow {
    pub start: u128,
    pub count: usize,
}

/// The window after a request, and whether the request is refused.
pub open spec fn rated(w: RateWindow, now: u128) -> (RateWindow, bool) {
    if age(w.start, now) > RATE_WINDOW_NANOS {
        (RateWindow { start: now, count: 1 }, false)
    } else if w.count < usize::MAX {
        (RateWindow { start: w.start, count: (w.count + 1) as usize }, w.count + 1 > RATE_LIMIT)
    } else {
        (w, true)
    }
}

impl RateWindow {
    pub fn new(now: u128) -> (r: Self)
        ensures
            r == (RateWindow { start: now, count: 0 }),
    {
        RateWindow { start: now, count: 0 }
    }

    /// Counts a request and says whether it is refused.
    pub fn hit(&mut self, now: u128) -> (r: bool)
        ensures
            (*final(self), r) == rated(*old(self), now),
    {
        if now >= self.start && now - self.start > RATE_WINDOW_NANOS {
            *self = RateWindow { start: now, count: 1 };
            return false;
        }
        if self.count < usize::MAX {
            *self = RateWindow { start: self.start, count: self.count + 1 };
        }
        self.count > RATE_LIMIT
    }
}

/// A place among at most `limit`, where `taken` are taken.
pub fn reserve(taken: usize, limit: usize) -> (r: Option<usize>)
    ensures
        r == (if taken >= limit {
            None
        } else {
            Some((taken + 1) as usize)
        }),
{
    if taken >= limit {
        None
    } else {
        Some(taken + 1)
    }
}

/// The places that are taken once one is given back.
pub fn release(taken: usize) -> (r: usize)
    ensures
        r == (if taken > 0 {
            taken - 1
        } else {
            0
        }),
{
    if taken > 0 {
        taken - 1
    } else {
        0
    }
}

/// Why an agent may not start.
#[derive(Debug, Clone, Copy, PartialEq, Eq, Structural)]
pub enum AgentRefusal {
    AlreadyRunning,
    TooMany,
}

/// The number of running agents once one more starts in a session.
pub fn start_agent(running_here: bool, running: usize) -> (r: Result<usize, AgentRefusal>)
    ensures
        r == (if running_here {
            Err::<usize, AgentRefusal>(AgentRefusal::AlreadyRunning)
        } else if running >= MAX_GLOBAL_CONCURRENT_AGENTS {
            Err(AgentRefusal::TooMany)
        } else {
            Ok((running + 1) as usize)
        }),
{
    if running_here {
        return Err(AgentRefusal::AlreadyRunning);
    }
    match reserve(running, MAX_GLOBAL_CONCURRENT_AGENTS) {
        None => Err(AgentRefusal::TooMany),
        Some(now) => Ok(now),
    }
}

// ---------------------------------------------------------------------------
// Responses
// ---------------------------------------------------------------------------

/// The name of a status.
pub open spec fn reason_of(status: u16) -> Seq<char> {
    if status == 200 {
        "OK"@
    } else if status == 400 {
        "Bad Request"@
    } else if status == 401 {
        "Unauthorized"@
    } else if status == 403 {
        "Forbidden"@
    } else if status == 404 {
        "Not Found"@
    } else if status == 409 {
        "Conflict"@
    } else if status == 429 {
        "Too Many Requests"@
    } else if status == 503 {
        "Service Unavailable"@
    } else {
        "Internal Server Error"@
    }
}

fn reason(status: u16) -> (r: &'static str)
    ensures
        r@ == reason_of(status),
{
    if status == 200 {
        "OK"
    } else if status == 400 {
        "Bad Request"
    } else if status == 401 {
        "Unauthorized"
    } else if status == 403 {
        "Forbidden"
    } else if status == 404 {
        "Not Found"
    } else if status == 409 {
        "Conflict"
    } else if status == 429 {
        "Too Many Requests"
    } else if status == 503 {
        "Service Unavailable"
    } else {
        "Internal Server Error"
    }
}

pub const NO_SNIFFING: &'static str = "X-Content-Type-Options: nosniff\r\n";

pub const NO_FRAMES: &'static str = "X-Frame-Options: DENY\r\n";

pub const NO_REFERRER: &'static str = "Referrer-Policy: no-referrer\r\n";

pub const CONTENT_POLICY: &'static str = "Content-Security-Policy: default-src 'self'; script-src 'self' 'wasm-unsafe-eval'; style-src 'self'; img-src 'self' data:; object-src 'none'; base-uri 'none'; frame-ancestors 'none'\r\n";

pub const OPENER_POLICY: &'static str = "Cross-Origin-Opener-Policy: same-origin\r\n";

pub const RESOURCE_POLICY: &'static str = "Cross-Origin-Resource-Policy: same-origin\r\n";

pub const PERMISSIONS_POLICY: &'static str =
    "Permissions-Policy: camera=(), microphone=(), geolocation=()\r\n";

/// The headers that every response carries.
pub open spec fn security_headers() -> Seq<char> {
    NO_SNIFFING@ + NO_FRAMES@ + NO_REFERRER@ + CONTENT_POLICY@ + OPENER_POLICY@ + RESOURCE_POLICY@
        + PERMISSIONS_POLICY@
}

pub fn append_security_headers(header: &mut String)
    ensures
        final(header)@ == old(header)@ + security_headers(),
{
    let ghost before = header@;
    header.push_str(NO_SNIFFING);
    header.push_str(NO_FRAMES);
    header.push_str(NO_REFERRER);
    header.push_str(CONTENT_POLICY);
    header.push_str(OPENER_POLICY);
    header.push_str(RESOURCE_POLICY);
    header.push_str(PERMISSIONS_POLICY);
    assert(header@ =~= before + security_headers());
}

/// The line that sets a cookie, if one is to be set.
pub open spec fn cookie_line(cookie: Option<Seq<char>>) -> Seq<char> {
    match cookie {
        Some(value) => "Set-Cookie: "@ + value + "\r\n"@,
        None => Seq::empty(),
    }
}

/// A head made of its first lines.
pub open spec fn closed_head(first: Seq<char>, cookie: Option<Seq<char>>) -> Seq<char> {
    first + security_headers() + cookie_line(cookie) + "\r\n"@
}

fn close_head(first: String, cookie: Option<&str>) -> (r: String)
    ensures
        r@ == closed_head(first@, header_seen(cookie)),
{
    let mut r = first;
    append_security_headers(&mut r);
    let ghost so_far = r@;
    match cookie {
        Some(value) => {
            r.push_str("Set-Cookie: ");
            r.push_str(value);
            r.push_str("\r\n");
        },
        None => {},
    }
    assert(r@ =~= so_far + cookie_line(header_seen(cookie)));
    r.push_str("\r\n");
    r
}

/// The head of a response with a body.
pub open spec fn response_head_of(
    status: u16,
    content_type: Seq<char>,
    length: nat,
    cookie: Option<Seq<char>>,
) -> Seq<char> {
    closed_head(
        "HTTP/1.1 "@ + decimal(status as nat) + " "@ + reason_of(status) + "\r\nContent-Type: "@
            + content_type + "\r\nContent-Length: "@ + decimal(length)
            + "\r\nCache-Control: no-store\r\nConnection: close\r\n"@,
        cookie,
    )
}

pub fn response_head(status: u16, content_type: &str, length: usize, cookie: Option<&str>) -> (r:
    String)
    ensures
        r@ == response_head_of(status, content_type@, length as nat, header_seen(cookie)),
{
    let mut first = "HTTP/1.1 ".to_owned();
    first.push_str(decimal_text(status as u64).as_str());
    first.push_str(" ");
    first.push_str(reason(status));
    first.push_str("\r\nContent-Type: ");
    first.push_str(content_type);
    first.push_str("\r\nContent-Length: ");
    first.push_str(size_text(length).as_str());
    first.push_str("\r\nCache-Control: no-store\r\nConnection: close\r\n");
    close_head(first, cookie)
}

/// The head of a response that sends the browser elsewhere.
pub fn redirect_head(location: &str, cookie: Option<&str>) -> (r: String)
    ensures
        r@ == closed_head(
            "HTTP/1.1 302 Found\r\nLocation: "@ + location@
                + "\r\nContent-Length: 0\r\nConnection: close\r\n"@,
            header_seen(cookie),
        ),
{
    let mut first = "HTTP/1.1 302 Found\r\nLocation: ".to_owned();
    first.push_str(location);
    first.push_str("\r\nContent-Length: 0\r\nConnection: close\r\n");
    close_head(first, cookie)
}

/// The head of a response that streams events.
pub fn stream_head(cookie: Option<&str>) -> (r: String)
    ensures
        r@ == closed_head(
            "HTTP/1.1 200 OK\r\nContent-Type: application/x-ndjson; charset=utf-8\r\nCache-Control: no-store\r\nConnection: close\r\n"@,
            header_seen(cookie),
        ),
{
    close_head(
        "HTTP/1.1 200 OK\r\nContent-Type: application/x-ndjson; charset=utf-8\r\nCache-Control: no-store\r\nConnection: close\r\n".to_owned(),
        cookie,
    )
}

/// Whether a message speaks of the host.
pub open spec fn reveals_host(message: Seq<char>) -> bool {
    let low = lower_text(message);
    holds_text(low, "/home"@) || holds_text(low, "/tmp"@) || holds_text(low, "credential"@)
        || holds_text(low, "stack trace"@) || holds_text(low, "backtrace"@)
}

/// Whether a message speaks of nothing that belongs to the host.
pub fn speaks_of_no_host(message: &str) -> (r: bool)
    ensures
        r == !reveals_host(message@),
{
    let low = ascii_lower(message);
    let low = low.as_str();
    !(contains_text(low, "/home") || contains_text(low, "/tmp") || contains_text(low, "credential")
        || contains_text(low, "stack trace") || contains_text(low, "backtrace"))
}

/// What of a message goes to the browser.
pub open spec fn sanitized(message: Seq<char>) -> Seq<char> {
    if reveals_host(message) {
        "request failed"@
    } else if byte_len(message) > 500 {
        first_chars(message, 500)
    } else {
        message
    }
}

pub fn sanitize_error(message: &str) -> (r: String)
    ensures
        r@ == sanitized(message@),
{
    if !speaks_of_no_host(message) {
        return "request failed".to_owned();
    }
    if byte_count(message) > 500 {
        take_chars(message, 500)
    } else {
        message.to_owned()
    }
}

/// The body of an error response.
pub fn error_body(message: &str) -> (r: String)
    ensures
        r@ == object_text(seq![("error"@, json_string(sanitized(message@)))]),
{
    let fields = vec![field("error", quoted(sanitize_error(message).as_str()))];
    assert(field_models(fields@) =~= seq![("error"@, json_string(sanitized(message@)))]);
    write_object(&fields)
}

/// How many bytes of a stream are written once an event of `length` bytes is, if it may be.
pub open spec fn written_after(length: nat, written: nat) -> Option<nat> {
    if length > MAX_AGENT_EVENT_BYTES || written + length + 1 > MAX_AGENT_STREAM_BYTES {
        None
    } else {
        Some(written + length + 1)
    }
}

/// How many bytes of a stream are written once an event of `length` bytes is, if it may be.
pub fn admit_event(length: usize, written: usize) -> (r: Option<usize>)
    ensures
        match r {
            Some(n) => written_after(length as nat, written as nat) == Some(n as nat),
            None => written_after(length as nat, written as nat) is None,
        },
{
    if length > MAX_AGENT_EVENT_BYTES || written > MAX_AGENT_STREAM_BYTES || written + (length + 1)
        > MAX_AGENT_STREAM_BYTES {
        return None;
    }
    Some(written + (length + 1))
}

/// The files that hold the browser module, the one to prefer first.
pub fn wasm_candidates() -> (r: [&'static str; 2])
    ensures
        r@[0]@ == "target/wasm32-unknown-unknown/release/a_rust_vm.wasm"@,
        r@[1]@ == "target/wasm32-unknown-unknown/debug/a_rust_vm.wasm"@,
{
    [
        "target/wasm32-unknown-unknown/release/a_rust_vm.wasm",
        "target/wasm32-unknown-unknown/debug/a_rust_vm.wasm",
    ]
}

// ---------------------------------------------------------------------------
// Laws
// ---------------------------------------------------------------------------

/// A line of the head with a colon sets the header before it, in whatever letter case, to what stands
/// behind it; all other headers stay, and a line without a colon sets none.
pub proof fn law_headers_are_read_line_by_line(
    all: Seq<Seq<char>>,
    n: int,
    name: Seq<char>,
    value: Seq<char>,
    other: Seq<char>,
)
    requires
        1 <= n < all.len(),
    ensures
        sorted::<String, Seq<char>>(headers_of(all, n)),
        all[n] == name + ":"@ + value && lacks(name, ':') ==> {
            &&& lookup::<String, Seq<char>>(headers_of(all, n + 1), lower_text(trim(name))) == Some(
                trim(value),
            )
            &&& other != lower_text(trim(name)) ==> lookup::<String, Seq<char>>(
                headers_of(all, n + 1),
                other,
            ) == lookup::<String, Seq<char>>(headers_of(all, n), other)
        },
        lacks(all[n], ':') ==> headers_of(all, n + 1) == headers_of(all, n),
{
    reveal_strlit(":");
    lemma_headers_sorted(all, n);
    let line = all[n];
    if line == name + ":"@ + value && lacks(name, ':') {
        let k = name.len() as int;
        assert forall|j: int| 0 <= j < k implies line[j] != ':' by {
            assert(line[j] == name[j]);
        }
        assert(line[k] == ':');
        lemma_find_char_is(line, ':', k);
        assert(line.take(k) =~= name);
        assert(line.skip(k + 1) =~= value);
        let key = lower_text(trim(name));
        law_put_then_get::<String, Seq<char>>(headers_of(all, n), key, trim(value), key);
        law_put_then_get::<String, Seq<char>>(headers_of(all, n), key, trim(value), other);
    }
    if lacks(line, ':') {
        lemma_find_char_is(line, ':', line.len() as int);
    }
}

proof fn lemma_headers_sorted(all: Seq<Seq<char>>, n: int)
    ensures
        sorted::<String, Seq<char>>(headers_of(all, n)),
    decreases n,
{
    if n > 1 {
        lemma_headers_sorted(all, n - 1);
        let line = all[n - 1];
        let colon = find_char(line, ':');
        lemma_with_entry_sorted::<String, Seq<char>>(
            headers_of(all, n - 1),
            lower_text(trim(line.take(colon))),
            trim(line.skip(colon + 1)),
        );
    }
}

/// What the head of a request says: its method, its path without the query, its headers, and the
/// length of its body as announced, or none. More than eight megabytes are refused.
pub proof fn law_heads_say_what_is_asked(bytes: Seq<u8>)
    ensures
        head_of(bytes) matches Ok(head) ==> {
            let all = lines_of(decode_utf8(bytes));
            let words = words_of(all[0]);
            let announced = lookup::<String, Seq<char>>(head.headers, "content-length"@);
            &&& valid_utf8(bytes)
            &&& words.len() >= 2
            &&& head.method == words[0]
            &&& lacks(head.path, '?')
            &&& words[1] == head.path || begins(words[1], head.path.push('?'))
            &&& head.headers == headers_of(all, all.len() as int)
            &&& head.content_length <= 8_388_608
            &&& announced is None ==> head.content_length == 0
            &&& announced matches Some(value) ==> parse_natural(value, usize::MAX as nat) == Some(
                head.content_length,
            )
        },
{
    if let Ok(head) = head_of(bytes) {
        let all = lines_of(decode_utf8(bytes));
        let target = words_of(all[0])[1];
        lemma_find_char(target, '?');
        let k = find_char(target, '?');
        if k < target.len() {
            assert(target.take(k + 1) =~= target.take(k).push('?'));
        } else {
            assert(target.take(k) =~= target);
        }
    }
}

/// A request that changes something is admitted only from the allowed origin and with the cookie of a
/// session, and what only reads is never refused for want of them.
pub proof fn law_changes_are_admitted_from_the_origin(head: HeadModel, allowed_origin: Seq<char>)
    ensures
        head.method == "POST"@ || head.method == "PUT"@ || head.method == "PATCH"@ || head.method
            == "DELETE"@ ==> (admission(head, allowed_origin) is Admitted ==> (lookup::<
            String,
            Seq<char>,
        >(head.headers, "origin"@) matches Some(origin) && trim(origin) == allowed_origin)
            && cookie_sid(lookup::<String, Seq<char>>(head.headers, "cookie"@)) is Some),
        head.method == "GET"@ || head.method == "HEAD"@ ==> !(admission(
            head,
            allowed_origin,
        ) is ForeignOrigin) && !(admission(head, allowed_origin) is SessionRequired),
        admission(head, allowed_origin) is Health ==> head.path == "/healthz"@,
{
    reveal_strlit("GET");
    reveal_strlit("HEAD");
    reveal_strlit("POST");
    reveal_strlit("PUT");
    reveal_strlit("PATCH");
    reveal_strlit("DELETE");
    assert("GET"@[0] == 'G');
    assert("HEAD"@[0] == 'H');
    assert("POST"@[0] == 'P');
    assert("PUT"@[0] == 'P');
    assert("PATCH"@[0] == 'P');
    assert("DELETE"@[0] == 'D');
}

/// What is asked for is asked for by this method and this path, and by no other.
pub proof fn law_routes_have_their_method_and_path(method: &str, path: &str, r: Route)
    requires
        call_ensures(route, (method, path), r),
    ensures
        match r {
            Route::Home => (method@ == "GET"@ || method@ == "HEAD"@) && path@ == "/"@,
            Route::Page => (method@ == "GET"@ || method@ == "HEAD"@) && (path@ == "/web/"@ || path@
                == "/web/index.html"@),
            Route::Script => (method@ == "GET"@ || method@ == "HEAD"@) && path@ == "/web/main.js"@,
            Route::Style => (method@ == "GET"@ || method@ == "HEAD"@) && path@ == "/web/styles.css"@,
            Route::DebugModule => (method@ == "GET"@ || method@ == "HEAD"@) && path@
                == "/target/wasm32-unknown-unknown/debug/a_rust_vm.wasm"@,
            Route::Module => (method@ == "GET"@ || method@ == "HEAD"@) && path@ == "/api/wasm"@,
            Route::System => method@ == "GET"@ && path@ == "/api/v1/system"@,
            Route::Agent => method@ == "POST"@ && path@ == "/api/agent"@,
            Route::AgentCancel => method@ == "POST"@ && path@ == "/api/agent/cancel"@,
            Route::Upload => method@ == "POST"@ && path@ == "/api/upload"@,
            Route::Files => method@ == "GET"@ && path@ == "/api/files"@,
            Route::Apps => method@ == "GET"@ && path@ == "/api/apps"@,
            Route::AppOperation => method@ == "POST"@ && path@ == "/api/apps/operate"@,
            Route::Tabulate => method@ == "POST"@ && path@ == "/api/tabulate"@,
            Route::PdfInspection => method@ == "POST"@ && path@ == "/api/pdf/inspect"@,
            Route::Jobs => method@ == "GET"@ && path@ == "/api/jobs"@,
            Route::Approval => method@ == "POST"@ && path@ == "/api/approval"@,
            Route::Unknown => !(method@ == "POST"@ && (path@ == "/api/agent"@ || path@
                == "/api/agent/cancel"@ || path@ == "/api/upload"@ || path@ == "/api/apps/operate"@
                || path@ == "/api/tabulate"@ || path@ == "/api/pdf/inspect"@ || path@
                == "/api/approval"@)) && !(method@ == "GET"@ && (path@ == "/"@ || path@ == "/web/"@
                || path@ == "/web/main.js"@ || path@ == "/web/styles.css"@ || path@ == "/api/wasm"@
                || path@ == "/api/v1/system"@ || path@ == "/api/files"@ || path@ == "/api/apps"@
                || path@ == "/api/jobs"@)),
        },
{
}

/// A session may make sixty requests in a minute: the next one is refused until the minute is over,
/// and then the count begins anew.
pub proof fn law_requests_are_limited_by_the_minute(w: RateWindow, now: u128)
    requires
        w.count < usize::MAX,
    ensures
        ({
            let (after, refused) = rated(w, now);
            &&& now - w.start > 60_000_000_000 ==> after == (RateWindow { start: now, count: 1 })
                && !refused
            &&& now - w.start <= 60_000_000_000 ==> after.start == w.start && after.count == w.count
                + 1 && (refused <==> w.count >= 60)
        }),
{
}

/// What is told to the browser speaks of no path of the host, of no credential and of no trace, in
/// whatever letter case, and is not longer than five hundred characters or bytes. All else is told
/// as it is.
pub proof fn law_messages_tell_nothing_of_the_host(message: Seq<char>, word: Seq<char>)
    requires
        word == "/home"@ || word == "/tmp"@ || word == "credential"@ || word == "stack trace"@ || word
            == "backtrace"@,
    ensures
        !holds_text(lower_text(sanitized(message)), word),
        holds_text(lower_text(message), word) ==> sanitized(message) == "request failed"@,
        sanitized(message).len() <= 500 || byte_len(message) <= 500,
        byte_len(message) <= 500 && !holds_text(lower_text(message), "/home"@) && !holds_text(
            lower_text(message),
            "/tmp"@,
        ) && !holds_text(lower_text(message), "credential"@) && !holds_text(
            lower_text(message),
            "stack trace"@,
        ) && !holds_text(lower_text(message), "backtrace"@) ==> sanitized(message) == message,
{
    if reveals_host(message) {
        reveal_strlit("request failed");
        reveal_strlit("/home");
        reveal_strlit("/tmp");
        reveal_strlit("credential");
        reveal_strlit("stack trace");
        reveal_strlit("backtrace");
        let said = "request failed"@;
        assert(lower_text(said) =~= said);
        lemma_find_text(said, word, 0);
        if holds_text(said, word) {
            let i = find_text(said, word, 0)->0;
            assert(said.subrange(i, i + word.len())[0] == word[0]);
            assert(said.subrange(i, i + word.len())[1] == word[1]);
            assert(said.subrange(i, i + word.len())[2] == word[2]);
            assert(said[i] == word[0] && said[i + 1] == word[1] && said[i + 2] == word[2]);
        }
    } else {
        let kept = sanitized(message);
        let low = lower_text(kept);
        if holds_text(low, word) {
            law_texts_hold_their_parts(low, word);
            let (a, b) = choose|a: Seq<char>, b: Seq<char>| low == #[trigger] (a + word + b);
            let whole = lower_text(message);
            assert(whole =~= low + whole.skip(low.len() as int));
            assert(whole =~= a + word + (b + whole.skip(low.len() as int)));
            law_texts_hold_their_parts(whole, word);
        }
    }
}

/// The stream of an agent takes an event of up to 256 kilobytes, with a line end, as long as all of
/// them together are at most two megabytes.
pub proof fn law_streams_are_bounded(length: usize, written: usize, r: Option<usize>)
    requires
        call_ensures(admit_event, (length, written), r),
    ensures
        r is Some <==> length <= 262_144 && written + length + 1 <= 2_097_152,
        r matches Some(n) ==> n == written + length + 1,
{
}

/// A head is complete where an empty line ends it, with either kind of line end.
pub proof fn law_heads_end_with_an_empty_line(head: Seq<u8>, front: Seq<u8>)
    ensures
        ends_in_blank_line(front + seq![10u8, 10u8]),
        ends_in_blank_line(front + seq![13u8, 10u8, 13u8, 10u8]),
        ends_in_blank_line(head) ==> head.len() >= 2 && head.skip(head.len() - 2) == seq![10u8, 10u8]
            || head.len() >= 4 && head.skip(head.len() - 4) == seq![13u8, 10u8, 13u8, 10u8],
{
    let n = head.len() as int;
    if ends_in_blank_line(head) {
        if n >= 2 && head[n - 2] == 10 && head[n - 1] == 10 {
            assert(head.skip(n - 2) =~= seq![10u8, 10u8]);
        } else {
            assert(head.skip(n - 4) =~= seq![13u8, 10u8, 13u8, 10u8]);
        }
    }
}

/// A response begins with its status, tells the kind and the length of its body, is never to be
/// stored, and ends with an empty line; a cookie stands in a line of its own.
pub proof fn law_responses_tell_their_status_and_length(
    status: u16,
    kind: Seq<char>,
    length: nat,
    cookie: Option<Seq<char>>,
)
    ensures
        begins(
            response_head_of(status, kind, length, cookie),
            "HTTP/1.1 "@ + decimal(status as nat) + " "@,
        ),
        holds_text(
            response_head_of(status, kind, length, cookie),
            "\r\nContent-Type: "@ + kind + "\r\nContent-Length: "@ + decimal(length),
        ),
        ends(response_head_of(status, kind, length, cookie), "\r\n\r\n"@),
        cookie matches Some(value) ==> holds_text(
            response_head_of(status, kind, length, cookie),
            "\r\nSet-Cookie: "@ + value + "\r\n"@,
        ),
{
    let first = "HTTP/1.1 "@ + decimal(status as nat) + " "@ + reason_of(status)
        + "\r\nContent-Type: "@ + kind + "\r\nContent-Length: "@ + decimal(length)
        + "\r\nCache-Control: no-store\r\nConnection: close\r\n"@;
    let secured = security_headers();
    let n = secured.len() as int;
    lemma_headers_end_lines();
    assert(secured =~= secured.take(n - 2) + "\r\n"@);
    lemma_first_lines(
        "HTTP/1.1 "@ + decimal(status as nat) + " "@,
        reason_of(status),
        "\r\nContent-Type: "@,
        kind,
        "\r\nContent-Length: "@,
        decimal(length),
        "\r\nCache-Control: no-store\r\nConnection: close\r\n"@,
    );
    let whole = response_head_of(status, kind, length, cookie);
    lemma_kept_parts(
        first,
        secured,
        cookie_line(cookie),
        "\r\n"@,
        "HTTP/1.1 "@ + decimal(status as nat) + " "@,
        "\r\nContent-Type: "@ + kind + "\r\nContent-Length: "@ + decimal(length),
    );
    match cookie {
        Some(value) => lemma_last_lines(
            first,
            secured.take(n - 2),
            "\r\n"@,
            "Set-Cookie: "@ + value,
        ),
        None => lemma_last_lines(first, secured.take(n - 2), "\r\n"@, Seq::empty()),
    }
    reveal_strlit("\r\n");
    reveal_strlit("\r\n\r\n");
    reveal_strlit("Set-Cookie: ");
    reveal_strlit("\r\nSet-Cookie: ");
    assert("\r\n\r\n"@ =~= "\r\n"@ + "\r\n"@);
    assert("\r\nSet-Cookie: "@ =~= "\r\n"@ + "Set-Cookie: "@);
    if let Some(value) = cookie {
        assert("\r\n"@ + ("Set-Cookie: "@ + value) + "\r\n"@ =~= "\r\nSet-Cookie: "@ + value
            + "\r\n"@);
        assert(cookie_line(cookie) =~= ("Set-Cookie: "@ + value) + "\r\n"@);
    } else {
        assert(first + (secured.take(n - 2) + "\r\n"@) + cookie_line(cookie) + "\r\n"@ =~= first
            + (secured.take(n - 2) + "\r\n"@) + "\r\n"@);
    }
}

proof fn lemma_first_lines(
    a: Seq<char>,
    b: Seq<char>,
    c: Seq<char>,
    d: Seq<char>,
    e: Seq<char>,
    f: Seq<char>,
    g: Seq<char>,
)
    ensures
        begins(a + b + c + d + e + f + g, a),
        holds_text(a + b + c + d + e + f + g, c + d + e + f),
{
    let whole = a + b + c + d + e + f + g;
    assert(whole.take(a.len() as int) =~= a);
    assert(whole =~= (a + b) + (c + d + e + f) + g);
    lemma_holds_part(a + b, c + d + e + f, g);
}

proof fn lemma_kept_parts(
    first: Seq<char>,
    b: Seq<char>,
    c: Seq<char>,
    d: Seq<char>,
    start: Seq<char>,
    part: Seq<char>,
)
    requires
        begins(first, start),
        holds_text(first, part),
    ensures
        begins(first + b + c + d, start),
        holds_text(first + b + c + d, part),
{
    let whole = first + b + c + d;
    assert(whole.take(start.len() as int) =~= first.take(start.len() as int));
    law_texts_hold_their_parts(first, part);
    let (x, y) = choose|x: Seq<char>, y: Seq<char>| first == #[trigger] (x + part + y);
    assert(whole =~= x + part + (y + b + c + d));
    lemma_holds_part(x, part, y + b + c + d);
}

proof fn lemma_last_lines(first: Seq<char>, front: Seq<char>, end: Seq<char>, line: Seq<char>)
    ensures
        ends(first + (front + end) + (line + end) + end, end + end),
        holds_text(first + (front + end) + (line + end) + end, end + line + end),
        ends(first + (front + end) + end, end + end),
{
    lemma_ends_twice(first + (front + end) + line, end);
    assert(first + (front + end) + (line + end) + end =~= first + (front + end) + line + end + end);
    lemma_ends_twice(first + front, end);
    assert(first + (front + end) + end =~= first + front + end + end);
    lemma_holds_part(first + front, end + line + end, end);
    assert(first + (front + end) + (line + end) + end =~= (first + front) + (end + line + end) + end);
}

proof fn lemma_ends_twice(front: Seq<char>, end: Seq<char>)
    ensures
        ends(front + end + end, end + end),
{
    let whole = front + end + end;
    assert(whole.skip(whole.len() - (end + end).len()) =~= end + end);
}

proof fn lemma_holds_part(before: Seq<char>, part: Seq<char>, after: Seq<char>)
    ensures
        holds_text(before + part + after, part),
{
    law_texts_hold_their_parts(before + part + after, part);
}

proof fn lemma_headers_end_lines()
    ensures
        security_headers().len() > 2,
        security_headers().skip(security_headers().len() - 2) == "\r\n"@,
{
    reveal_strlit("\r\n");
    reveal_strlit("Permissions-Policy: camera=(), microphone=(), geolocation=()\r\n");
    let s = security_headers();
    let last = PERMISSIONS_POLICY@;
    assert(s.skip(s.len() - last.len()) =~= last);
    assert(s[s.len() - 1] == last[last.len() - 1]);
    assert(s[s.len() - 2] == last[last.len() - 2]);
    assert(s.skip(s.len() - 2) =~= "\r\n"@);
}

} // verus!
