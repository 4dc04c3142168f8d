//! Authentication helpers: constant-time comparison built on HMAC-SHA256,
//! bearer-token checking, viewer nonces and the viewer's
//! Content-Security-Policy header.
use vstd::prelude::*;
use base64::Engine as _;
use rand::RngCore as _;
use sha2::Digest as _;
use vstd::string::StringSliceAdditionalSpecFns;
use vstd::utf8::encode_utf8;
use crate::text::{chars_of, owned, push_str, seq_starts_with, starts_with, string_from_chars};

verus! {

broadcast use vstd::string::group_string_axioms;

// ---------------------------------------------------------------------------
// Outside primitives
// ---------------------------------------------------------------------------

/// The SHA-256 digest of a byte sequence.
pub uninterp spec fn sha256(data: Seq<u8>) -> Seq<u8>;

/// `sha2::Sha256::digest`: the result is named by [`sha256`] and is 32 bytes
/// long, as every SHA-256 digest is.
#[verifier::external_body]
pub(crate) fn sha256_digest(data: &[u8]) -> (r: Vec<u8>)
    ensures
        r@ == sha256(data@),
        r@.len() == 32,
{
    sha2::Sha256::digest(data).to_vec()
}

/// The character for a six-bit value in the URL-safe base64 alphabet:
/// `A`-`Z`, `a`-`z`, `0`-`9`, then `-` and `_`.
pub open spec fn base64_url_char(v: int) -> char {
    if v < 26 {
        (65 + v) as char
    } else if v < 52 {
        (97 + v - 26) as char
    } else if v < 62 {
        (48 + v - 52) as char
    } else if v == 62 {
        '-'
    } else {
        '_'
    }
}

/// The unpadded URL-safe base64 text of a byte sequence: each group of
/// three bytes gives four characters of six bits each; a last group of one
/// or two bytes gives two or three characters, its missing bits zero.
pub open spec fn base64_url_no_pad(data: Seq<u8>) -> Seq<char>
    decreases data.len(),
{
    let b0 = data[0] as int;
    let b1 = data[1] as int;
    let b2 = data[2] as int;
    if data.len() == 0 {
        seq![]
    } else if data.len() == 1 {
        seq![base64_url_char(b0 / 4), base64_url_char((b0 % 4) * 16)]
    } else if data.len() == 2 {
        seq![base64_url_char(b0 / 4), base64_url_char((b0 % 4) * 16 + b1 / 16), base64_url_char((b1 % 16) * 4)]
    } else {
        seq![
            base64_url_char(b0 / 4),
            base64_url_char((b0 % 4) * 16 + b1 / 16),
            base64_url_char((b1 % 16) * 4 + b2 / 64),
            base64_url_char(b2 % 64),
        ] + base64_url_no_pad(data.skip(3))
    }
}

/// Length of unpadded base64 text for `n` input bytes: four characters per
/// complete group of three bytes, then two or three for a partial group.
pub open spec fn base64_no_pad_len(n: nat) -> nat {
    (n / 3) * 4 + if n % 3 == 1 {
        2nat
    } else if n % 3 == 2 {
        3nat
    } else {
        0nat
    }
}

/// `base64::engine::general_purpose::URL_SAFE_NO_PAD.encode`: the unpadded
/// URL-safe base64 text that [`base64_url_no_pad`] spells out; its length is
/// the one `encoded_len` computes for unpadded output.
#[verifier::external_body]
fn encode_base64_url_no_pad(data: &[u8]) -> (r: String)
    requires
        data@.len() <= 0x1000_0000,
    ensures
        r@ == base64_url_no_pad(data@),
        r@.len() == base64_no_pad_len(data@.len()),
{
    base64::engine::general_purpose::URL_SAFE_NO_PAD.encode(data)
}

/// `rand::rngs::OsRng::try_fill_bytes` on a 16-byte buffer: sixteen bytes
/// from the operating system's random source, or `None` when that source
/// reports an error.  Nothing is stated of the values.
#[verifier::external_body]
fn os_random_16() -> (r: Option<Vec<u8>>)
    ensures
        r matches Some(v) ==> v@.len() == 16,
{
    let mut bytes = [0u8; 16];
    match rand::rngs::OsRng.try_fill_bytes(&mut bytes) {
        Ok(()) => Some(bytes.to_vec()),
        Err(_) => None,
    }
}

// ---------------------------------------------------------------------------
// HMAC-SHA256
// ---------------------------------------------------------------------------

/// The HMAC block size of SHA-256, in bytes.
pub open spec fn block_size() -> nat {
    64
}

/// The key padded (or first hashed, when longer than a block) to one block.
pub open spec fn hmac_key_block(key: Seq<u8>) -> Seq<u8> {
    let k = if key.len() > block_size() {
        sha256(key)
    } else {
        key
    };
    Seq::new(block_size(), |i: int| if i < k.len() { k[i] } else { 0u8 })
}

/// Every byte of `s` exclusive-or'd with `pad`.
pub open spec fn xor_pad(s: Seq<u8>, pad: u8) -> Seq<u8> {
    s.map_values(|b: u8| b ^ pad)
}

/// HMAC-SHA256 of `msg` under `key` (RFC 2104).
pub open spec fn hmac_sha256_spec(key: Seq<u8>, msg: Seq<u8>) -> Seq<u8> {
    let kb = hmac_key_block(key);
    sha256(xor_pad(kb, 0x5c) + sha256(xor_pad(kb, 0x36) + msg))
}

fn copy_bytes(s: &[u8]) -> (r: Vec<u8>)
    ensures
        r@ == s@,
{
    let mut r: Vec<u8> = Vec::new();
    let mut i: usize = 0;
    while i < s.len()
        invariant
            i <= s.len(),
            r@ == s@.take(i as int),
        decreases s.len() - i,
    {
        r.push(s[i]);
        proof {
            assert(s@.take(i + 1) =~= s@.take(i as int).push(s@[i as int]));
        }
        i += 1;
    }
    proof {
        assert(s@.take(s@.len() as int) =~= s@);
    }
    r
}

fn hmac_sha256(key: &[u8], msg: &[u8]) -> (r: Vec<u8>)
    ensures
        r@ == hmac_sha256_spec(key@, msg@),
        r@.len() == 32,
{
    let k: Vec<u8> = if key.len() > 64 {
        sha256_digest(key)
    } else {
        copy_bytes(key)
    };
    let ghost kb = hmac_key_block(key@);
    let mut ipad: Vec<u8> = Vec::new();
    let mut opad: Vec<u8> = Vec::new();
    let mut i: usize = 0;
    while i < 64
        invariant
            k@.len() <= 64,
            k@ == (if key@.len() > block_size() { sha256(key@) } else { key@ }),
            kb == hmac_key_block(key@),
            i <= 64,
            ipad@.len() == i,
            opad@.len() == i,
            forall|j: int| 0 <= j < i ==> #[trigger] ipad@[j] == kb[j] ^ 0x36,
            forall|j: int| 0 <= j < i ==> #[trigger] opad@[j] == kb[j] ^ 0x5c,
        decreases 64 - i,
    {
        let b: u8 = if i < k.len() { k[i] } else { 0u8 };
        ipad.push(b ^ 0x36u8);
        opad.push(b ^ 0x5cu8);
        i += 1;
    }
    proof {
        assert(ipad@ =~= xor_pad(kb, 0x36));
        assert(opad@ =~= xor_pad(kb, 0x5c));
    }
    let mut inner_input = ipad;
    let mut j: usize = 0;
    let ghost ip = inner_input@;
    while j < msg.len()
        invariant
            j <= msg.len(),
            inner_input@ == ip + msg@.take(j as int),
        decreases msg.len() - j,
    {
        inner_input.push(msg[j]);
        proof {
            assert(msg@.take(j + 1) =~= msg@.take(j as int).push(msg@[j as int]));
        }
        j += 1;
    }
    proof {
        assert(msg@.take(msg@.len() as int) =~= msg@);
    }
    let inner_hash = sha256_digest(inner_input.as_slice());
    let mut outer_input = opad;
    let ghost op = outer_input@;
    let mut t: usize = 0;
    while t < inner_hash.len()
        invariant
            t <= inner_hash.len(),
            outer_input@ == op + inner_hash@.take(t as int),
        decreases inner_hash.len() - t,
    {
        outer_input.push(inner_hash[t]);
        proof {
            assert(inner_hash@.take(t + 1) =~= inner_hash@.take(t as int).push(inner_hash@[t as int]));
        }
        t += 1;
    }
    proof {
        assert(inner_hash@.take(inner_hash@.len() as int) =~= inner_hash@);
    }
    sha256_digest(outer_input.as_slice())
}

// ---------------------------------------------------------------------------
// Comparisons
// ---------------------------------------------------------------------------

proof fn lemma_xor_zero(x: u8, y: u8)
    ensures
        (x ^ y == 0) <==> (x == y),
{
    assert((x ^ y == 0) <==> (x == y)) by (bit_vector);
}

proof fn lemma_or_zero(d: u8, e: u8)
    ensures
        (d | e == 0) <==> (d == 0 && e == 0),
{
    assert((d | e == 0) <==> (d == 0 && e == 0)) by (bit_vector);
}

/// Byte-wise equality that reads every byte of equal-length inputs.
fn constant_time_compare(a: &[u8], b: &[u8]) -> (r: bool)
    ensures
        r == (a@ == b@),
{
    if a.len() != b.len() {
        return false;
    }
    let mut diff: u8 = 0;
    let mut i: usize = 0;
    while i < a.len()
        invariant
            a.len() == b.len(),
            i <= a.len(),
            (diff == 0) <==> (forall|k: int| 0 <= k < i ==> a@[k] == b@[k]),
        decreases a.len() - i,
    {
        let x = a[i];
        let y = b[i];
        proof {
            lemma_xor_zero(x, y);
            lemma_or_zero(diff, x ^ y);
        }
        diff = diff | (x ^ y);
        proof {
            if diff == 0 {
                assert forall|k: int| 0 <= k < i + 1 implies a@[k] == b@[k] by {}
            }
        }
        i += 1;
    }
    proof {
        if diff == 0 {
            assert(a@ =~= b@);
        }
    }
    diff == 0
}

/// The fixed message both sides are authenticated over.
pub open spec fn compare_message() -> Seq<u8> {
    seq![0x63u8, 0x6f, 0x6e, 0x73, 0x74, 0x61, 0x6e, 0x74]
}

/// What [`timing_safe_equal`] decides: equal lengths, and equal
/// HMAC-SHA256 tags of the fixed message `"constant"` under each input.
pub open spec fn timing_safe_equal_spec(a: Seq<u8>, b: Seq<u8>) -> bool {
    a.len() == b.len() && hmac_sha256_spec(a, compare_message()) == hmac_sha256_spec(
        b,
        compare_message(),
    )
}

/// Constant-time HMAC-SHA256 comparison.  Returns `false` if lengths differ.
pub fn timing_safe_equal(a: &[u8], b: &[u8]) -> (r: bool)
    ensures
        r == timing_safe_equal_spec(a@, b@),
{
    if a.len() != b.len() {
        return false;
    }
    let msg: Vec<u8> = vec![0x63u8, 0x6f, 0x6e, 0x73, 0x74, 0x61, 0x6e, 0x74];
    proof {
        assert(msg@ =~= compare_message());
    }
    let h_a = hmac_sha256(a, msg.as_slice());
    let h_b = hmac_sha256(b, msg.as_slice());
    constant_time_compare(h_a.as_slice(), h_b.as_slice())
}

/// Comparing a value with itself always succeeds.
pub proof fn lemma_timing_safe_equal_reflexive(a: Seq<u8>)
    ensures
        timing_safe_equal_spec(a, a),
{
}

/// The comparison does not depend on argument order.
pub proof fn lemma_timing_safe_equal_symmetric(a: Seq<u8>, b: Seq<u8>)
    ensures
        timing_safe_equal_spec(a, b) == timing_safe_equal_spec(b, a),
{
}

// ---------------------------------------------------------------------------
// Nonce and CSP
// ---------------------------------------------------------------------------

/// A 16-byte random nonce, base64url-encoded without padding (22
/// characters); `None` when the operating system's random source fails.
pub fn create_viewer_nonce() -> (r: Option<String>)
    ensures
        r matches Some(n) ==> (exists|bytes: Seq<u8>| bytes.len() == 16 && n@ == base64_url_no_pad(bytes)) && n@.len()
            == 22,
{
    match os_random_16() {
        Some(bytes) => Some(encode_base64_url_no_pad(bytes.as_slice())),
        None => None,
    }
}

/// Content-Security-Policy header value for the given nonce.
pub open spec fn viewer_csp(nonce: Seq<char>) -> Seq<char> {
    "default-src 'self'; script-src 'self' 'nonce-"@ + nonce
        + "' 'strict-dynamic'; style-src 'self' 'unsafe-inline'; img-src 'self' data: blob:; font-src 'self' data:; connect-src 'self'; frame-ancestors 'none'; base-uri 'self'; form-action 'self'; object-src 'none'; upgrade-insecure-requests"@
}

/// Build a Content-Security-Policy header value with the given nonce.
pub fn build_viewer_csp(nonce: &str) -> (r: String)
    ensures
        r@ == viewer_csp(nonce@),
{
    let mut out = owned("default-src 'self'; script-src 'self' 'nonce-");
    push_str(&mut out, nonce);
    push_str(
        &mut out,
        "' 'strict-dynamic'; style-src 'self' 'unsafe-inline'; img-src 'self' data: blob:; font-src 'self' data:; connect-src 'self'; frame-ancestors 'none'; base-uri 'self'; form-action 'self'; object-src 'none'; upgrade-insecure-requests",
    );
    out
}

// ---------------------------------------------------------------------------
// Bearer tokens
// ---------------------------------------------------------------------------

/// The token with one leading `"Bearer "` removed, if present.
pub open spec fn strip_bearer(s: Seq<char>) -> Seq<char> {
    if starts_with(s, "Bearer "@) {
        s.skip(7)
    } else {
        s
    }
}

/// What [`verify_bearer_token`] decides.
pub open spec fn bearer_matches(provided: Seq<char>, expected: Seq<char>) -> bool {
    provided.len() > 0 && expected.len() > 0 && timing_safe_equal_spec(
        encode_utf8(strip_bearer(provided)),
        encode_utf8(strip_bearer(expected)),
    )
}

fn strip_bearer_exec(s: &str) -> (r: String)
    ensures
        r@ == strip_bearer(s@),
{
    let prefix = "Bearer ";
    proof {
        reveal_strlit("Bearer ");
    }
    let v = chars_of(s);
    let p = chars_of(prefix);
    if seq_starts_with(v.as_slice(), p.as_slice()) {
        let mut rest: Vec<char> = Vec::new();
        let mut i: usize = 7;
        while i < v.len()
            invariant
                7 <= i <= v.len(),
                rest@ == v@.subrange(7, i as int),
            decreases v.len() - i,
        {
            rest.push(v[i]);
            proof {
                assert(v@.subrange(7, i + 1) =~= v@.subrange(7, i as int).push(v@[i as int]));
            }
            i += 1;
        }
        proof {
            assert(v@.skip(7) =~= v@.subrange(7, v@.len() as int));
        }
        string_from_chars(rest.as_slice())
    } else {
        string_from_chars(v.as_slice())
    }
}

/// Constant-time bearer-token comparison.  Returns `false` if either is empty.
pub fn verify_bearer_token(provided: &str, expected: &str) -> (r: bool)
    ensures
        r == bearer_matches(provided@, expected@),
{
    if provided.is_empty() || expected.is_empty() {
        return false;
    }
    let p = strip_bearer_exec(provided);
    let e = strip_bearer_exec(expected);
    timing_safe_equal(p.as_str().as_bytes(), e.as_str().as_bytes())
}

} // verus!
