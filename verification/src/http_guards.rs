//! The checks the HTTP transport makes on each request (bearer token,
//! declared body size, origin host) and the JSON-RPC error it answers a
//! refused request with.
use vstd::prelude::*;
use crate::http_transport::{parse_unsigned, MAX_BODY_BYTES};
use crate::json::{json_text, to_json_text, Json};
use crate::text::{chars_of, decimal, decimal_string, owned, push_str, starts_with, str_eq, string_from_chars};

verus! {

broadcast use vstd::string::group_string_axioms;

/// Why a request is refused.
pub enum HttpMcpError {
    /// Authentication failed.
    Unauthorized(String),
    /// Request body too large.
    PayloadTooLarge,
    /// A Host or Origin that is not a loopback address.
    DnsRebindingBlocked(String),
    /// Invalid or missing JSON-RPC request.
    BadRequest(String),
    /// Internal server error.
    Internal(String),
}

/// The HTTP status of a refusal.
pub open spec fn status_of(e: HttpMcpError) -> u16 {
    match e {
        HttpMcpError::Unauthorized(_) => 401,
        HttpMcpError::PayloadTooLarge => 413,
        HttpMcpError::DnsRebindingBlocked(_) => 403,
        HttpMcpError::BadRequest(_) => 400,
        HttpMcpError::Internal(_) => 500,
    }
}

/// The message of a refusal.
pub open spec fn message_of(e: HttpMcpError) -> Seq<char> {
    match e {
        HttpMcpError::Unauthorized(m) => m@,
        HttpMcpError::PayloadTooLarge => "Request body exceeds "@ + decimal(MAX_BODY_BYTES as nat) + " byte limit"@,
        HttpMcpError::DnsRebindingBlocked(m) => m@,
        HttpMcpError::BadRequest(m) => m@,
        HttpMcpError::Internal(m) => m@,
    }
}

/// The JSON-RPC error document answered for a refusal (members in the
/// order they are written).
pub open spec fn error_document(status: u16, message: Seq<char>) -> Seq<char> {
    "{\"error\":{\"code\":"@ + decimal(status as nat) + ",\"message\":"@ + crate::json::quoted(message)
        + "},\"jsonrpc\":\"2.0\"}"@
}

/// The status and JSON-RPC body a refusal is answered with.
pub fn error_response(e: &HttpMcpError) -> (r: (u16, String))
    ensures
        r.0 == status_of(*e),
        r.1@ == error_document(status_of(*e), message_of(*e)),
{
    let (status, message): (u16, String) = match e {
        HttpMcpError::Unauthorized(m) => (401, owned(m.as_str())),
        HttpMcpError::PayloadTooLarge => {
            let mut m = owned("Request body exceeds ");
            let d = decimal_string(MAX_BODY_BYTES as u64);
            push_str(&mut m, d.as_str());
            push_str(&mut m, " byte limit");
            (413, m)
        },
        HttpMcpError::DnsRebindingBlocked(m) => (403, owned(m.as_str())),
        HttpMcpError::BadRequest(m) => (400, owned(m.as_str())),
        HttpMcpError::Internal(m) => (500, owned(m.as_str())),
    };
    let mut body = owned("{\"error\":{\"code\":");
    let d = decimal_string(status as u64);
    push_str(&mut body, d.as_str());
    push_str(&mut body, ",\"message\":");
    let q = to_json_text(&Json::Str(message));
    push_str(&mut body, q.as_str());
    push_str(&mut body, "},\"jsonrpc\":\"2.0\"}");
    (status, body)
}

// ---------------------------------------------------------------------------
// Bearer token
// ---------------------------------------------------------------------------

/// The `Authorization` header of a request.
pub enum AuthHeader {
    Missing,
    /// Present but not visible ASCII text.
    NotText,
    Text(String),
}

/// The token of an `Authorization` value: what follows `Bearer `, or the
/// whole value.
pub open spec fn bearer_of(v: Seq<char>) -> Seq<char> {
    if starts_with(v, "Bearer "@) {
        v.skip(7)
    } else {
        v
    }
}

/// What the auth check gives: no token configured lets every request
/// through; otherwise the header must carry the token.
pub open spec fn auth_outcome(expected: Option<Seq<char>>, header: AuthHeader) -> Result<(), Seq<char>> {
    match expected {
        None => Ok(()),
        Some(t) => match header {
            AuthHeader::Missing => Err("Bearer token required (set MEMPALACE_HTTP_TOKEN or --token)"@),
            AuthHeader::NotText => Err("Invalid Authorization header encoding"@),
            AuthHeader::Text(v) => if bearer_of(v@) == t {
                Ok(())
            } else {
                Err("Invalid bearer token"@)
            },
        },
    }
}

/// Check a request's `Authorization` header against the configured token.
pub fn check_bearer(expected: Option<&str>, header: &AuthHeader) -> (r: Result<(), HttpMcpError>)
    ensures
        match r {
            Ok(()) => auth_outcome(crate::connect::opt_str(expected), *header) == Ok::<(), Seq<char>>(()),
            Err(HttpMcpError::Unauthorized(m)) => auth_outcome(crate::connect::opt_str(expected), *header) == Err::<
                (),
                Seq<char>,
            >(m@),
            Err(_) => false,
        },
{
    let t = match expected {
        None => {
            return Ok(());
        },
        Some(t) => t,
    };
    match header {
        AuthHeader::Missing => Err(HttpMcpError::Unauthorized(owned("Bearer token required (set MEMPALACE_HTTP_TOKEN or --token)"))),
        AuthHeader::NotText => Err(HttpMcpError::Unauthorized(owned("Invalid Authorization header encoding"))),
        AuthHeader::Text(v) => {
            let cs = chars_of(v.as_str());
            let p = chars_of("Bearer ");
            let token = if crate::text::seq_starts_with(cs.as_slice(), p.as_slice()) {
                proof {
                    reveal_strlit("Bearer ");
                }
                string_from_chars(vstd::slice::slice_subrange(cs.as_slice(), 7, cs.len()))
            } else {
                owned(v.as_str())
            };
            proof {
                reveal_strlit("Bearer ");
                assert(cs@.skip(7) =~= cs@.subrange(7, cs@.len() as int));
            }
            if str_eq(token.as_str(), t) {
                Ok(())
            } else {
                Err(HttpMcpError::Unauthorized(owned("Invalid bearer token")))
            }
        },
    }
}

// ---------------------------------------------------------------------------
// Declared body size
// ---------------------------------------------------------------------------

/// A declared `Content-Length` is refused when it is a number over the
/// cap; a missing or unreadable one is let through (the body itself is
/// capped as it is read).
pub open spec fn length_refused(content_length: Option<Seq<char>>) -> bool {
    match content_length {
        Some(v) => match parse_unsigned(v, usize::MAX as nat) {
            Some(n) => n > MAX_BODY_BYTES,
            None => false,
        },
        None => false,
    }
}

/// Whether a request's declared `Content-Length` (as text, when the header
/// is present and readable) is over the body cap.
pub fn content_length_refused(content_length: Option<&str>) -> (r: bool)
    ensures
        r == length_refused(crate::connect::opt_str(content_length)),
{
    match content_length {
        Some(v) => match crate::http_transport::parse_unsigned_exec(v, usize::MAX as u64) {
            Some(n) => n > MAX_BODY_BYTES as u64,
            None => false,
        },
        None => false,
    }
}

// ---------------------------------------------------------------------------
// Origin
// ---------------------------------------------------------------------------

/// `s` up to the first `c` (all of `s` when there is none).
pub open spec fn before_char(s: Seq<char>, c: char) -> Seq<char>
    decreases s.len(),
{
    if s.len() == 0 {
        s
    } else if s[0] == c {
        Seq::empty()
    } else {
        seq![s[0]] + before_char(s.drop_first(), c)
    }
}

/// The host an `Origin` names: after `http://` or `https://`, up to the
/// first `/`, without a `:port` unless it is a bracketed IPv6 address.
/// `None` for an origin of another scheme (it is not checked).
pub open spec fn origin_host(origin: Seq<char>) -> Option<Seq<char>> {
    let rest = if starts_with(origin, "http://"@) {
        Some(origin.skip(7))
    } else if starts_with(origin, "https://"@) {
        Some(origin.skip(8))
    } else {
        None
    };
    match rest {
        None => None,
        Some(r) => {
            let h = before_char(r, '/');
            if h.len() > 0 && h[0] == '[' {
                Some(h)
            } else {
                Some(before_char(h, ':'))
            }
        },
    }
}

fn before_char_exec(s: &[char], c: char) -> (r: Vec<char>)
    ensures
        r@ == before_char(s@, c),
{
    let mut r: Vec<char> = Vec::new();
    let mut k: usize = 0;
    proof {
        assert(s@.skip(0) =~= s@);
        assert(r@ + before_char(s@, c) =~= before_char(s@, c));
    }
    while k < s.len() && s[k] != c
        invariant
            k <= s@.len(),
            before_char(s@, c) == r@ + before_char(s@.skip(k as int), c),
        decreases s.len() - k,
    {
        proof {
            let t = s@.skip(k as int);
            assert(t[0] == s@[k as int]);
            assert(t.drop_first() =~= s@.skip(k + 1));
        }
        r.push(s[k]);
        proof {
            assert(before_char(s@, c) =~= r@ + before_char(s@.skip(k + 1), c));
        }
        k += 1;
    }
    proof {
        if k < s.len() {
            assert(s@.skip(k as int)[0] == c);
        } else {
            assert(s@.skip(k as int) =~= Seq::<char>::empty());
        }
        assert(r@ + Seq::<char>::empty() =~= r@);
    }
    r
}

/// The host an `Origin` header names, for the loopback check.
pub fn origin_hostname(origin: &str) -> (r: Option<String>)
    ensures
        match r {
            Some(h) => origin_host(origin@) == Some(h@),
            None => origin_host(origin@) is None,
        },
{
    let cs = chars_of(origin);
    let http = chars_of("http://");
    let https = chars_of("https://");
    proof {
        reveal_strlit("http://");
        reveal_strlit("https://");
        assert(cs@.skip(7) =~= cs@.subrange(7, cs@.len() as int));
        assert(cs@.skip(8) =~= cs@.subrange(8, cs@.len() as int));
    }
    let rest: &[char] = if crate::text::seq_starts_with(cs.as_slice(), http.as_slice()) {
        vstd::slice::slice_subrange(cs.as_slice(), 7, cs.len())
    } else if crate::text::seq_starts_with(cs.as_slice(), https.as_slice()) {
        vstd::slice::slice_subrange(cs.as_slice(), 8, cs.len())
    } else {
        return None;
    };
    let h = before_char_exec(rest, '/');
    if h.len() > 0 && h[0] == '[' {
        Some(string_from_chars(h.as_slice()))
    } else {
        let p = before_char_exec(h.as_slice(), ':');
        Some(string_from_chars(p.as_slice()))
    }
}

// ---------------------------------------------------------------------------
// The host of a `Host` value
// ---------------------------------------------------------------------------

/// Index of the last `c` in `s`, or -1.
pub open spec fn last_index_of(s: Seq<char>, c: char) -> int
    decreases s.len(),
{
    if s.len() == 0 {
        -1
    } else if s.last() == c {
        s.len() - 1
    } else {
        last_index_of(s.drop_last(), c)
    }
}

/// Number of occurrences of `c` in `s`.
pub open spec fn count_of(s: Seq<char>, c: char) -> nat
    decreases s.len(),
{
    if s.len() == 0 {
        0
    } else {
        count_of(s.drop_last(), c) + if s.last() == c {
            1nat
        } else {
            0nat
        }
    }
}

/// The text before the last `:` of a `Host` value that is not bracketed:
/// the caller tells whether it is an IP address, which decides whether the
/// `:` opens a port.
pub open spec fn port_split_candidate(h: Seq<char>) -> Option<Seq<char>> {
    if h.len() > 0 && h[0] == '[' {
        None
    } else if last_index_of(h, ':') >= 0 {
        Some(h.take(last_index_of(h, ':')))
    } else {
        None
    }
}

/// The host of a `Host` value without its port: inside the brackets of a
/// bracketed IPv6 address; before the last `:` when what precedes it is an
/// IP address (`candidate_is_ip`) or the value has a single `:`; otherwise
/// the value itself (a bare IPv6 address).
pub open spec fn host_without_port(h: Seq<char>, candidate_is_ip: bool) -> Seq<char> {
    if h.len() > 0 && h[0] == '[' {
        if h.contains(']') {
            before_char(h.drop_first(), ']')
        } else {
            h
        }
    } else if last_index_of(h, ':') >= 0 && (candidate_is_ip || count_of(h, ':') == 1) {
        h.take(last_index_of(h, ':'))
    } else {
        h
    }
}

fn last_index_of_exec(s: &[char], c: char) -> (r: Option<usize>)
    ensures
        match r {
            Some(k) => last_index_of(s@, c) == k as int && k < s@.len(),
            None => last_index_of(s@, c) == -1,
        },
{
    let mut k: usize = s.len();
    proof {
        assert(s@.take(k as int) =~= s@);
    }
    while k > 0
        invariant
            k <= s@.len(),
            last_index_of(s@, c) == last_index_of(s@.take(k as int), c),
        decreases k,
    {
        proof {
            assert(s@.take(k as int).drop_last() =~= s@.take(k - 1));
            assert(s@.take(k as int).last() == s@[k - 1]);
        }
        if s[k - 1] == c {
            return Some(k - 1);
        }
        k -= 1;
    }
    proof {
        assert(s@.take(0) =~= Seq::<char>::empty());
    }
    None
}

fn count_of_exec(s: &[char], c: char) -> (r: usize)
    ensures
        r == count_of(s@, c),
{
    let mut n: usize = 0;
    let mut k: usize = 0;
    while k < s.len()
        invariant
            k <= s@.len(),
            n == count_of(s@.take(k as int), c),
            n <= k,
        decreases s.len() - k,
    {
        proof {
            assert(s@.take(k + 1).drop_last() =~= s@.take(k as int));
        }
        if s[k] == c {
            n += 1;
        }
        k += 1;
    }
    proof {
        assert(s@.take(s@.len() as int) =~= s@);
    }
    n
}

/// The text before the last `:` of an unbracketed `Host` value, for the
/// caller to test as an IP address.
pub fn port_split_candidate_of(hostname: &str) -> (r: Option<String>)
    ensures
        match r {
            Some(c) => port_split_candidate(hostname@) == Some(c@),
            None => port_split_candidate(hostname@) is None,
        },
{
    let cs = chars_of(hostname);
    if cs.len() > 0 && cs[0] == '[' {
        return None;
    }
    match last_index_of_exec(cs.as_slice(), ':') {
        Some(k) => {
            let head = vstd::slice::slice_subrange(cs.as_slice(), 0, k);
            proof {
                assert(head@ =~= hostname@.take(k as int));
            }
            Some(string_from_chars(head))
        },
        None => None,
    }
}

/// The host of a `Host` value without its port; `candidate_is_ip` tells
/// whether [`port_split_candidate_of`] gave an IP address.
pub fn strip_host_port(hostname: &str, candidate_is_ip: bool) -> (r: String)
    ensures
        r@ == host_without_port(hostname@, candidate_is_ip),
{
    let cs = chars_of(hostname);
    if cs.len() > 0 && cs[0] == '[' {
        let rest = vstd::slice::slice_subrange(cs.as_slice(), 1, cs.len());
        proof {
            assert(rest@ =~= hostname@.drop_first());
        }
        match last_index_of_exec(cs.as_slice(), ']') {
            Some(_) => {
                proof {
                    lemma_last_index_of_bounds(hostname@, ']');
                }
                let h = before_char_exec(rest, ']');
                string_from_chars(h.as_slice())
            },
            None => {
                proof {
                    lemma_last_index_of_absent(hostname@, ']');
                }
                owned(hostname)
            },
        }
    } else {
        match last_index_of_exec(cs.as_slice(), ':') {
            Some(k) => {
                if candidate_is_ip || count_of_exec(cs.as_slice(), ':') == 1 {
                    let head = vstd::slice::slice_subrange(cs.as_slice(), 0, k);
                    proof {
                        assert(head@ =~= hostname@.take(k as int));
                    }
                    string_from_chars(head)
                } else {
                    owned(hostname)
                }
            },
            None => owned(hostname),
        }
    }
}

proof fn lemma_last_index_of_bounds(s: Seq<char>, c: char)
    requires
        last_index_of(s, c) >= 0,
    ensures
        last_index_of(s, c) < s.len(),
        s[last_index_of(s, c)] == c,
        s.contains(c),
    decreases s.len(),
{
    if s.last() != c {
        lemma_last_index_of_bounds(s.drop_last(), c);
        assert(s[last_index_of(s, c)] == s.drop_last()[last_index_of(s, c)]);
    }
}

proof fn lemma_last_index_of_absent(s: Seq<char>, c: char)
    requires
        last_index_of(s, c) < 0,
    ensures
        !s.contains(c),
    decreases s.len(),
{
    if s.len() > 0 {
        lemma_last_index_of_absent(s.drop_last(), c);
        assert forall|i: int| 0 <= i < s.len() implies s[i] != c by {
            if i < s.len() - 1 {
                assert(s[i] == s.drop_last()[i]);
            }
        }
    }
}

} // verus!
