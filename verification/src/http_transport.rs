//! Policy of the HTTP MCP transport: body-size cap, bind/auth resolution
//! (a bearer token is required for non-loopback binds), TLS option pairing,
//! port and idle-exit settings.  The values read from the environment are
//! passed in by the caller.
use vstd::prelude::*;
use crate::text::{chars_of, owned, trim, trim_str};

verus! {

broadcast use vstd::string::group_string_axioms;

/// Maximum request body size: 16 MiB.
pub const MAX_BODY_BYTES: usize = 16 * 1024 * 1024;

/// Default port of the MCP HTTP transport.
pub const DEFAULT_PORT: u16 = 3112;

/// Bind / auth / TLS options for the MCP HTTP transport.
pub struct HttpServeOptions {
    /// Bind host (IP or hostname); `127.0.0.1` when absent.
    pub host: Option<String>,
    /// Explicit bearer token; resolved from the environment when absent.
    pub token: Option<String>,
    /// TLS certificate PEM path.
    pub tls_cert: Option<String>,
    /// TLS private key PEM path.
    pub tls_key: Option<String>,
    /// Port given on the command line.
    pub port: Option<u16>,
}

/// Result of resolving host and token policy.
pub struct ResolvedHttpAuth {
    pub host: String,
    pub port: u16,
    pub token: Option<String>,
    /// The host is a loopback address (wildcards count as public).
    pub is_loopback_bind: bool,
}

/// A request body of `len` bytes is over the cap.
pub fn body_too_large(len: usize) -> (r: bool)
    ensures
        r == (len > MAX_BODY_BYTES),
{
    len > MAX_BODY_BYTES
}

pub open spec fn tls_pair_error(cert: bool, key: bool) -> Option<Seq<char>> {
    if cert && !key {
        Some("--tls-cert requires --tls-key (both must be provided together)"@)
    } else if !cert && key {
        Some("--tls-key requires --tls-cert (both must be provided together)"@)
    } else {
        None
    }
}

/// TLS certificate and key are given together or not at all.
pub fn validate_tls_pair<T>(cert: Option<&T>, key: Option<&T>) -> (r: Result<(), String>)
    ensures
        match r {
            Ok(()) => tls_pair_error(cert is Some, key is Some) is None,
            Err(m) => tls_pair_error(cert is Some, key is Some) == Some(m@),
        },
{
    match (cert, key) {
        (Some(_), None) => Err(owned("--tls-cert requires --tls-key (both must be provided together)")),
        (None, Some(_)) => Err(owned("--tls-key requires --tls-cert (both must be provided together)")),
        _ => Ok(()),
    }
}

/// The bearer token: a non-blank command-line token (trimmed), else the
/// `MEMPALACE_HTTP_TOKEN` value, else the legacy `MEMPALACE_MCP_HTTP_TOKEN`
/// value, each when non-empty.
pub open spec fn resolve_auth_token_spec(
    cli: Option<Seq<char>>,
    env_http: Option<Seq<char>>,
    env_legacy: Option<Seq<char>>,
) -> Option<Seq<char>> {
    if cli is Some && trim(cli->0).len() > 0 {
        Some(trim(cli->0))
    } else if env_http is Some && env_http->0.len() > 0 {
        env_http
    } else if env_legacy is Some && env_legacy->0.len() > 0 {
        env_legacy
    } else {
        None
    }
}

pub open spec fn opt_str_view(o: Option<&str>) -> Option<Seq<char>> {
    match o {
        Some(s) => Some(s@),
        None => None,
    }
}

/// Resolve the bearer token from the command line and the values of the
/// token environment variables.
pub fn resolve_auth_token(cli_token: Option<&str>, env_http: Option<&str>, env_legacy: Option<&str>) -> (r: Option<String>)
    ensures
        match r {
            Some(t) => resolve_auth_token_spec(opt_str_view(cli_token), opt_str_view(env_http), opt_str_view(env_legacy))
                == Some(t@),
            None => resolve_auth_token_spec(opt_str_view(cli_token), opt_str_view(env_http), opt_str_view(env_legacy))
                is None,
        },
{
    match cli_token {
        Some(t) => {
            let tt = trim_str(t);
            if !tt.as_str().is_empty() {
                return Some(tt);
            }
        },
        None => {},
    }
    match env_http {
        Some(t) => if !t.is_empty() {
            return Some(owned(t));
        },
        None => {},
    }
    match env_legacy {
        Some(t) => if !t.is_empty() {
            return Some(owned(t));
        },
        None => {},
    }
    None
}

// ---------------------------------------------------------------------------
// Decimal settings
// ---------------------------------------------------------------------------

pub open spec fn is_digit(c: char) -> bool {
    '0' <= c && c <= '9'
}

/// Value of a string of decimal digits.
pub open spec fn digits_value(s: Seq<char>) -> nat
    decreases s.len(),
{
    if s.len() == 0 {
        0
    } else {
        digits_value(s.drop_last()) * 10 + ((s.last() as u32) - ('0' as u32)) as nat
    }
}

/// What `str::parse` gives for an unsigned integer no larger than `max`:
/// an optional `+` and at least one decimal digit, nothing else, and a
/// value in range.
pub open spec fn parse_unsigned(s: Seq<char>, max: nat) -> Option<nat> {
    parse_digits(strip_plus(s), max)
}

/// `s` without one leading `+`.
pub open spec fn strip_plus(s: Seq<char>) -> Seq<char> {
    if s.len() > 0 && s[0] == '+' {
        s.drop_first()
    } else {
        s
    }
}

pub open spec fn all_digits(d: Seq<char>) -> bool {
    forall|i: int| 0 <= i < d.len() ==> is_digit(#[trigger] d[i])
}

/// A non-empty run of digits whose value is at most `max`.
pub open spec fn parse_digits(d: Seq<char>, max: nat) -> Option<nat> {
    if d.len() > 0 && all_digits(d) && digits_value(d) <= max {
        Some(digits_value(d))
    } else {
        None
    }
}

proof fn lemma_digits_value_monotone(s: Seq<char>, k: int)
    requires
        0 <= k <= s.len(),
        forall|i: int| 0 <= i < s.len() ==> is_digit(#[trigger] s[i]),
    ensures
        digits_value(s.take(k)) <= digits_value(s),
    decreases s.len() - k,
{
    if k < s.len() {
        lemma_digits_value_monotone(s, k + 1);
        assert(s.take(k + 1).drop_last() =~= s.take(k));
    } else {
        assert(s.take(k) =~= s);
    }
}

/// Parse an unsigned decimal number no larger than `max`.
pub(crate) fn parse_unsigned_exec(s: &str, max: u64) -> (r: Option<u64>)
    ensures
        match r {
            Some(v) => parse_unsigned(s@, max as nat) == Some(v as nat),
            None => parse_unsigned(s@, max as nat) is None,
        },
{
    let cs = chars_of(s);
    let start: usize = if cs.len() > 0 && cs[0] == '+' {
        1
    } else {
        0
    };
    let ghost d = strip_plus(s@);
    proof {
        assert(d =~= cs@.skip(start as int));
    }
    if start >= cs.len() {
        return None;
    }
    let mut v: u64 = 0;
    let mut i = start;
    while i < cs.len()
        invariant
            start <= i <= cs@.len(),
            cs@ == s@,
            d == cs@.skip(start as int),
            d == strip_plus(s@),
            forall|j: int| 0 <= j < i - start ==> is_digit(#[trigger] d[j]),
            v as nat == digits_value(d.take(i - start)),
            v <= max,
        decreases cs.len() - i,
    {
        let c = cs[i];
        proof {
            assert(d[i - start] == c);
            assert(d.take(i - start + 1).drop_last() =~= d.take(i - start));
        }
        if !('0' <= c && c <= '9') {
            proof {
                assert(!is_digit(d[i - start]));
            }
            return None;
        }
        let digit = (c as u32 - '0' as u32) as u64;
        if digit > max || v > (max - digit) / 10 {
            proof {
                assert(digits_value(d.take(i - start + 1)) == v * 10 + digit);
                assert(v * 10 + digit > max) by (nonlinear_arith)
                    requires
                        digit > max || v > (max - digit) / 10,
                        digit <= max ==> v > (max - digit) / 10,
                ;
                if all_digits(d) {
                    lemma_digits_value_monotone(d, i - start + 1);
                }
            }
            return None;
        }
        proof {
            assert(v * 10 + digit <= max) by (nonlinear_arith)
                requires
                    v <= (max - digit) / 10,
                    digit <= max,
            ;
        }
        v = v * 10 + digit;
        i += 1;
    }
    proof {
        assert(d.take(d.len() as int) =~= d);
    }
    Some(v)
}

/// The port: a valid `MEMPALACE_MCP_HTTP_PORT` value, else the override,
/// else the default.
pub fn resolve_port(env_port: Option<&str>, port_override: Option<u16>) -> (r: u16)
    ensures
        r == if env_port is Some && parse_unsigned(env_port->0@, 65535) is Some {
            parse_unsigned(env_port->0@, 65535)->0 as u16
        } else {
            match port_override {
                Some(p) => p,
                None => DEFAULT_PORT,
            }
        },
{
    match env_port {
        Some(e) => match parse_unsigned_exec(e, 65535) {
            Some(n) => {
                return n as u16;
            },
            None => {},
        },
        None => {},
    }
    match port_override {
        Some(p) => p,
        None => DEFAULT_PORT,
    }
}

/// The idle-exit timeout from the raw `MEMPALACE_MCP_IDLE_EXIT_SECONDS`
/// value: its trimmed decimal value when that is positive; `None` when the
/// value is absent, invalid or zero.
pub fn resolve_idle_exit_seconds(raw: Option<&str>) -> (r: Option<u64>)
    ensures
        r == match raw {
            Some(s) => match parse_unsigned(trim(s@), u64::MAX as nat) {
                Some(n) => if n == 0 {
                    None
                } else {
                    Some(n as u64)
                },
                None => None,
            },
            None => None,
        },
{
    match raw {
        Some(s) => {
            let t = trim_str(s);
            match parse_unsigned_exec(t.as_str(), u64::MAX) {
                Some(n) => if n == 0 {
                    None
                } else {
                    Some(n)
                },
                None => None,
            }
        },
        None => None,
    }
}

/// The bind host: the given host, trimmed, when it is not blank; else
/// `MEMPALACE_HTTP_HOST` when set and non-empty; else the bind-address
/// variable when set and non-empty; else `127.0.0.1`.
pub open spec fn bind_host(arg: Option<Seq<char>>, env_host: Option<Seq<char>>, env_bind: Option<Seq<char>>) -> Seq<char> {
    if arg is Some && trim(arg->0).len() > 0 {
        trim(arg->0)
    } else if env_host is Some && env_host->0.len() > 0 {
        env_host->0
    } else if env_bind is Some && env_bind->0.len() > 0 {
        env_bind->0
    } else {
        "127.0.0.1"@
    }
}

/// Resolve the bind host from the command line and the environment.
pub fn resolve_bind_host(arg: Option<&str>, env_host: Option<&str>, env_bind: Option<&str>) -> (r: String)
    ensures
        r@ == bind_host(opt_str_view(arg), opt_str_view(env_host), opt_str_view(env_bind)),
{
    match arg {
        Some(a) => {
            let t = trim_str(a);
            if !t.as_str().is_empty() {
                return t;
            }
        },
        None => {},
    }
    match env_host {
        Some(h) => {
            if !h.is_empty() {
                return owned(h);
            }
        },
        None => {},
    }
    match env_bind {
        Some(b) => {
            if !b.is_empty() {
                return owned(b);
            }
        },
        None => {},
    }
    owned("127.0.0.1")
}

/// What to do about the bearer token once the host is known.
pub enum TokenPlan {
    /// Serve with this token (or none, on a loopback bind).
    Use(Option<String>),
    /// Generate a token and announce it: a non-loopback bind has none.
    Generate,
    /// Refuse to serve, with this message.
    Refuse(String),
}

pub open spec fn refusal_message(host: Seq<char>) -> Seq<char> {
    "refusing to bind to non-loopback host '"@ + host
        + "' without a bearer token. Pass --token <secret>, set MEMPALACE_HTTP_TOKEN, or bind to 127.0.0.1."@
}

/// A non-loopback bind must have a bearer token: one is generated when
/// that is allowed, and otherwise the bind is refused.
pub fn plan_http_token(host: &str, is_loopback_bind: bool, token: Option<String>, auto_generate_token: bool) -> (r:
    TokenPlan)
    ensures
        match r {
            TokenPlan::Use(t) => (is_loopback_bind || token is Some) && opt_string_view(t) == opt_string_view(token),
            TokenPlan::Generate => !is_loopback_bind && token is None && auto_generate_token,
            TokenPlan::Refuse(m) => !is_loopback_bind && token is None && !auto_generate_token && m@ == refusal_message(
                host@,
            ),
        },
{
    if !is_loopback_bind && token.is_none() {
        if auto_generate_token {
            TokenPlan::Generate
        } else {
            let mut m = owned("refusing to bind to non-loopback host '");
            crate::text::push_str(&mut m, host);
            crate::text::push_str(
                &mut m,
                "' without a bearer token. Pass --token <secret>, set MEMPALACE_HTTP_TOKEN, or bind to 127.0.0.1.",
            );
            TokenPlan::Refuse(m)
        }
    } else {
        TokenPlan::Use(token)
    }
}

pub open spec fn opt_string_view(o: Option<String>) -> Option<Seq<char>> {
    match o {
        Some(s) => Some(s@),
        None => None,
    }
}

/// The idle-exit watchdog fires once at least `idle_secs` seconds have
/// passed since the last activity (both times in milliseconds; a clock
/// that went back counts as no time).
pub fn idle_exit_due(now_ms: u64, last_activity_ms: u64, idle_secs: u64) -> (r: bool)
    ensures
        r == ((if now_ms >= last_activity_ms {
            now_ms - last_activity_ms
        } else {
            0
        }) >= (if idle_secs * 1000 > u64::MAX {
            u64::MAX as int
        } else {
            idle_secs * 1000
        })),
{
    let limit: u64 = if idle_secs > u64::MAX / 1000 {
        u64::MAX
    } else {
        idle_secs * 1000
    };
    now_ms.saturating_sub(last_activity_ms) >= limit
}

} // verus!
