//! Character-level text helpers shared by the rest of the library.
//!
//! Strings are reasoned about through their character sequences (`s@`).
//! Byte lengths, which is what `str::len` reports, are given by
//! [`utf8_len`].
use vstd::prelude::*;
use vstd::string::StringExecFns;
use vstd::string::StringSliceAdditionalSpecFns;
use vstd::utf8::{encode_utf8, encode_scalar, char_is_scalar};

verus! {

broadcast use vstd::string::group_string_axioms;

// ---------------------------------------------------------------------------
// Byte lengths
// ---------------------------------------------------------------------------

/// Number of bytes in the UTF-8 encoding of one character.
pub open spec fn char_width(c: char) -> nat {
    let v = c as u32;
    if v <= 0x7F {
        1
    } else if v <= 0x7FF {
        2
    } else if v <= 0xFFFF {
        3
    } else {
        4
    }
}

/// Number of bytes in the UTF-8 encoding of a character sequence.
pub open spec fn utf8_len(s: Seq<char>) -> nat
    decreases s.len(),
{
    if s.len() == 0 {
        0
    } else {
        char_width(s[0]) + utf8_len(s.drop_first())
    }
}

pub proof fn lemma_encode_len(s: Seq<char>)
    ensures
        encode_utf8(s).len() == utf8_len(s),
    decreases s.len(),
{
    if s.len() > 0 {
        char_is_scalar(s[0]);
        assert(encode_scalar(s[0] as u32).len() == char_width(s[0]));
        lemma_encode_len(s.drop_first());
    }
}

pub proof fn lemma_utf8_len_concat(a: Seq<char>, b: Seq<char>)
    ensures
        utf8_len(a + b) == utf8_len(a) + utf8_len(b),
    decreases a.len(),
{
    if a.len() == 0 {
        assert(a + b =~= b);
    } else {
        assert((a + b).drop_first() =~= a.drop_first() + b);
        lemma_utf8_len_concat(a.drop_first(), b);
    }
}

pub proof fn lemma_utf8_len_push(a: Seq<char>, c: char)
    ensures
        utf8_len(a.push(c)) == utf8_len(a) + char_width(c),
{
    lemma_utf8_len_concat(a, seq![c]);
    assert(a.push(c) =~= a + seq![c]);
    assert(seq![c].drop_first() =~= Seq::<char>::empty());
    assert(utf8_len(seq![c]) == char_width(c) + utf8_len(seq![c].drop_first()));
}

pub proof fn lemma_utf8_len_ge_len(s: Seq<char>)
    ensures
        utf8_len(s) >= s.len(),
    decreases s.len(),
{
    if s.len() > 0 {
        lemma_utf8_len_ge_len(s.drop_first());
    }
}

/// What `str::len` reports for a string with characters `s`.
pub open spec fn byte_len(s: Seq<char>) -> usize {
    utf8_len(s) as usize
}

/// Byte length of a string slice.
pub fn str_len(s: &str) -> (n: usize)
    ensures
        n == byte_len(s@),
{
    let n = s.len();
    proof {
        lemma_encode_len(s@);
        assert(s.spec_bytes() == encode_utf8(s@));
    }
    n
}

/// Byte length of one character.
pub fn char_len_utf8(c: char) -> (n: usize)
    ensures
        n == char_width(c),
{
    let v = c as u32;
    if v <= 0x7F {
        1
    } else if v <= 0x7FF {
        2
    } else if v <= 0xFFFF {
        3
    } else {
        4
    }
}

// ---------------------------------------------------------------------------
// Building strings
// ---------------------------------------------------------------------------

/// The characters of `s`, in order.
pub fn chars_of(s: &str) -> (v: Vec<char>)
    ensures
        v@ == s@,
{
    let mut v: Vec<char> = Vec::new();
    for c in it: s.chars()
        invariant
            it.seq() == s@,
            v@ == it.seq().take(it.index() as int),
    {
        v.push(c);
    }
    v
}

/// `String::push`: appends one character.
#[verifier::external_body]
pub fn push_char(s: &mut String, c: char)
    ensures
        final(s)@ == old(s)@.push(c),
{
    s.push(c);
}

/// Collects characters into a `String` (`FromIterator<char>`).
#[verifier::external_body]
pub fn string_from_chars(v: &[char]) -> (s: String)
    ensures
        s@ == v@,
{
    v.iter().collect()
}

/// Appends a string slice.
pub fn push_str(s: &mut String, t: &str)
    ensures
        final(s)@ == old(s)@ + t@,
{
    s.append(t);
}

/// A fresh `String` holding `t`.
pub fn owned(t: &str) -> (s: String)
    ensures
        s@ == t@,
{
    String::from_str(t)
}

/// `a < b` for strings: lexicographic by character (the order `str`
/// comparison gives, as UTF-8 preserves code-point order).
pub open spec fn lex_lt(a: Seq<char>, b: Seq<char>) -> bool
    decreases a.len(),
{
    if b.len() == 0 {
        false
    } else if a.len() == 0 {
        true
    } else if a[0] != b[0] {
        (a[0] as u32) < (b[0] as u32)
    } else {
        lex_lt(a.drop_first(), b.drop_first())
    }
}

pub fn str_lt(a: &str, b: &str) -> (r: bool)
    ensures
        r == lex_lt(a@, b@),
{
    let av = chars_of(a);
    let bv = chars_of(b);
    let mut i: usize = 0;
    proof {
        assert(av@.skip(0) =~= av@);
        assert(bv@.skip(0) =~= bv@);
    }
    loop
        invariant
            i <= av@.len(),
            i <= bv@.len(),
            lex_lt(a@, b@) == lex_lt(av@.skip(i as int), bv@.skip(i as int)),
            av@ == a@,
            bv@ == b@,
        decreases av@.len() - i,
    {
        if i == bv.len() {
            return false;
        }
        if i == av.len() {
            return true;
        }
        let x = av[i];
        let y = bv[i];
        proof {
            assert(av@.skip(i as int)[0] == x);
            assert(bv@.skip(i as int)[0] == y);
        }
        if x != y {
            return (x as u32) < (y as u32);
        }
        proof {
            assert(av@.skip(i as int).drop_first() =~= av@.skip(i + 1));
            assert(bv@.skip(i as int).drop_first() =~= bv@.skip(i + 1));
        }
        i += 1;
    }
}


/// `lex_lt` is irreflexive.
pub proof fn lemma_lex_lt_irrefl(a: Seq<char>)
    ensures
        !lex_lt(a, a),
    decreases a.len(),
{
    if a.len() > 0 {
        lemma_lex_lt_irrefl(a.drop_first());
    }
}

/// `lex_lt` is transitive.
pub proof fn lemma_lex_lt_trans(a: Seq<char>, b: Seq<char>, c: Seq<char>)
    requires
        lex_lt(a, b),
        lex_lt(b, c),
    ensures
        lex_lt(a, c),
    decreases a.len(),
{
    if a.len() > 0 && b.len() > 0 && c.len() > 0 && a[0] == b[0] && b[0] == c[0] {
        lemma_lex_lt_trans(a.drop_first(), b.drop_first(), c.drop_first());
    }
}

proof fn lemma_char_code_injective(x: char, y: char)
    requires
        x != y,
    ensures
        (x as u32) != (y as u32),
{
    assert((x as int) != (y as int));
}

/// `lex_lt` is total on distinct strings.
pub proof fn lemma_lex_lt_total(a: Seq<char>, b: Seq<char>)
    requires
        a != b,
    ensures
        lex_lt(a, b) || lex_lt(b, a),
    decreases a.len(),
{
    if a.len() > 0 && b.len() > 0 && a[0] == b[0] {
        if a.drop_first() == b.drop_first() {
            assert(a =~= seq![a[0]] + a.drop_first());
            assert(b =~= seq![b[0]] + b.drop_first());
        }
        lemma_lex_lt_total(a.drop_first(), b.drop_first());
    } else if a.len() == 0 && b.len() == 0 {
        assert(a =~= b);
    } else if a.len() > 0 && b.len() > 0 {
        lemma_char_code_injective(a[0], b[0]);
    }
}


/// Whether the UTF-8 encoding of `s` is longer than `n` bytes.
pub fn utf8_longer_than(s: &[char], n: usize) -> (r: bool)
    ensures
        r == (utf8_len(s@) > n),
{
    let mut total: usize = 0;
    let mut i: usize = 0;
    while i < s.len()
        invariant
            i <= s@.len(),
            total == utf8_len(s@.take(i as int)),
            total <= n,
        decreases s.len() - i,
    {
        proof {
            assert(s@.take(i + 1) =~= s@.take(i as int).push(s@[i as int]));
            lemma_utf8_len_push(s@.take(i as int), s@[i as int]);
        }
        let w = char_len_utf8(s[i]);
        if w > n - total {
            proof {
                lemma_utf8_len_concat(s@.take(i + 1), s@.skip(i + 1));
                assert(s@.take(i + 1) + s@.skip(i + 1) =~= s@);
            }
            return true;
        }
        total = total + w;
        i += 1;
    }
    proof {
        assert(s@.take(s@.len() as int) =~= s@);
    }
    false
}


/// Trimming keeps a contiguous part of the string.
pub proof fn lemma_trim_is_subrange(s: Seq<char>)
    ensures
        exists|a: int, b: int| 0 <= a <= b <= s.len() && #[trigger] s.subrange(a, b) == trim(s),
{
    lemma_trim_start_suffix(s);
    let t = trim_start(s);
    let a = (s.len() - t.len()) as int;
    lemma_trim_end_prefix(t);
    let u = trim_end(t);
    assert(s.subrange(a, a + u.len()) =~= u);
}

proof fn lemma_trim_start_suffix(s: Seq<char>)
    ensures
        trim_start(s).len() <= s.len(),
        trim_start(s) == s.skip(s.len() - trim_start(s).len()),
    decreases s.len(),
{
    if s.len() > 0 && is_ws(s[0]) {
        lemma_trim_start_suffix(s.drop_first());
        assert(s.drop_first().skip(s.drop_first().len() - trim_start(s).len()) =~= s.skip(s.len() - trim_start(s).len()));
    } else {
        assert(s.skip(0) =~= s);
    }
}

proof fn lemma_trim_end_prefix(s: Seq<char>)
    ensures
        trim_end(s).len() <= s.len(),
        trim_end(s) == s.take(trim_end(s).len() as int),
    decreases s.len(),
{
    if s.len() > 0 && is_ws(s.last()) {
        lemma_trim_end_prefix(s.drop_last());
        assert(s.drop_last().take(trim_end(s).len() as int) =~= s.take(trim_end(s).len() as int));
    } else {
        assert(s.take(s.len() as int) =~= s);
    }
}

/// Trimming keeps no whitespace at either end.
pub proof fn lemma_trim_ends(s: Seq<char>)
    ensures
        trim(s).len() > 0 ==> !is_ws(trim(s)[0]) && !is_ws(trim(s).last()),
    decreases s.len(),
{
    lemma_trim_start_nonws(s);
    let t = trim_start(s);
    lemma_trim_end_prefix(t);
    lemma_trim_end_nonws(t);
}

proof fn lemma_trim_start_nonws(s: Seq<char>)
    ensures
        trim_start(s).len() > 0 ==> !is_ws(trim_start(s)[0]),
    decreases s.len(),
{
    if s.len() > 0 && is_ws(s[0]) {
        lemma_trim_start_nonws(s.drop_first());
    }
}

proof fn lemma_trim_end_nonws(s: Seq<char>)
    ensures
        trim_end(s).len() > 0 ==> !is_ws(trim_end(s).last()),
    decreases s.len(),
{
    if s.len() > 0 && is_ws(s.last()) {
        lemma_trim_end_nonws(s.drop_last());
    }
}

/// The character sequences of a list of strings.
pub open spec fn str_views(v: Seq<String>) -> Seq<Seq<char>> {
    v.map_values(|s: String| s@)
}

/// Copy of a `String`.
pub fn copy_string(t: &String) -> (s: String)
    ensures
        s@ == t@,
{
    t.clone()
}

// ---------------------------------------------------------------------------
// Character classes
// ---------------------------------------------------------------------------

/// The Unicode `White_Space` property, which is what `char::is_whitespace`
/// tests.
pub open spec fn is_ws(c: char) -> bool {
    let v = c as u32;
    ||| (0x09 <= v <= 0x0D)
    ||| v == 0x20
    ||| v == 0x85
    ||| v == 0xA0
    ||| v == 0x1680
    ||| (0x2000 <= v <= 0x200A)
    ||| v == 0x2028
    ||| v == 0x2029
    ||| v == 0x202F
    ||| v == 0x205F
    ||| v == 0x3000
}

pub fn is_whitespace(c: char) -> (b: bool)
    ensures
        b == is_ws(c),
{
    let v = c as u32;
    (0x09 <= v && v <= 0x0D) || v == 0x20 || v == 0x85 || v == 0xA0 || v == 0x1680 || (0x2000
        <= v && v <= 0x200A) || v == 0x2028 || v == 0x2029 || v == 0x202F || v == 0x205F || v
        == 0x3000
}

pub open spec fn is_ascii_alnum(c: char) -> bool {
    ('a' <= c && c <= 'z') || ('A' <= c && c <= 'Z') || ('0' <= c && c <= '9')
}

pub fn is_ascii_alphanumeric(c: char) -> (b: bool)
    ensures
        b == is_ascii_alnum(c),
{
    ('a' <= c && c <= 'z') || ('A' <= c && c <= 'Z') || ('0' <= c && c <= '9')
}

/// ASCII lower-casing of one character (other characters are unchanged).
pub open spec fn ascii_lower(c: char) -> char {
    if 'A' <= c && c <= 'Z' {
        ((c as u32) + 32) as char
    } else {
        c
    }
}

pub fn to_ascii_lower(c: char) -> (r: char)
    ensures
        r == ascii_lower(c),
{
    if 'A' <= c && c <= 'Z' {
        let v: u32 = (c as u32) + 32;
        proof {
            assert(v <= 0x7F);
        }
        char_from_ascii(v)
    } else {
        c
    }
}

/// The ASCII character with the given code.
pub fn char_from_ascii(v: u32) -> (c: char)
    requires
        v <= 0x7F,
    ensures
        c == v as char,
        c as u32 == v,
{
    let b = v as u8;
    b as char
}

/// Unicode `Alphabetic` or `Numeric`, which is what `char::is_alphanumeric`
/// tests; the property tables are not restated here.
pub uninterp spec fn is_unicode_alnum(c: char) -> bool;

/// `char::is_alphanumeric`.  The result is named by [`is_unicode_alnum`];
/// ASCII letters and digits are alphanumeric and the ASCII punctuation,
/// space and control characters are not.
#[verifier::external_body]
pub fn is_alphanumeric(c: char) -> (b: bool)
    ensures
        b == is_unicode_alnum(c),
        (c as u32) < 0x80 ==> (b == is_ascii_alnum(c)),
{
    c.is_alphanumeric()
}

/// Unicode lower-casing of a whole string (`str::to_lowercase`); the case
/// mapping tables are not restated here.
pub uninterp spec fn lowercase(s: Seq<char>) -> Seq<char>;

/// `str::to_lowercase`.  The result is named by [`lowercase`]; on ASCII
/// text it lower-cases each letter and keeps every other character.
#[verifier::external_body]
pub fn to_lowercase(s: &str) -> (r: String)
    ensures
        r@ == lowercase(s@),
        is_ascii_seq(s@) ==> r@ == s@.map_values(|c: char| ascii_lower(c)),
{
    s.to_lowercase()
}

pub open spec fn is_ascii_seq(s: Seq<char>) -> bool {
    forall|i: int| 0 <= i < s.len() ==> (#[trigger] s[i] as u32) < 0x80
}

// ---------------------------------------------------------------------------
// Comparisons and searching
// ---------------------------------------------------------------------------

pub open spec fn starts_with(h: Seq<char>, n: Seq<char>) -> bool {
    n.len() <= h.len() && h.take(n.len() as int) == n
}

pub open spec fn ends_with(h: Seq<char>, n: Seq<char>) -> bool {
    n.len() <= h.len() && h.skip(h.len() - n.len()) == n
}

pub open spec fn occurs_at(h: Seq<char>, n: Seq<char>, i: int) -> bool {
    0 <= i && i + n.len() <= h.len() && h.subrange(i, i + n.len()) == n
}

/// `n` occurs as a contiguous piece of `h`.
pub open spec fn contains_sub(h: Seq<char>, n: Seq<char>) -> bool {
    exists|i: int| occurs_at(h, n, i)
}

pub fn seq_starts_with(h: &[char], n: &[char]) -> (b: bool)
    ensures
        b == starts_with(h@, n@),
{
    if n.len() > h.len() {
        return false;
    }
    let mut i: usize = 0;
    while i < n.len()
        invariant
            n.len() <= h.len(),
            i <= n.len(),
            forall|k: int| 0 <= k < i ==> h@[k] == n@[k],
        decreases n.len() - i,
    {
        if h[i] != n[i] {
            proof {
                assert(h@.take(n@.len() as int)[i as int] != n@[i as int]);
            }
            return false;
        }
        i += 1;
    }
    proof {
        assert(h@.take(n@.len() as int) =~= n@);
    }
    true
}

/// Whether `n` occurs in `h` at position `i`.
pub fn occurs_at_exec(h: &[char], n: &[char], i: usize) -> (b: bool)
    ensures
        b == occurs_at(h@, n@, i as int),
{
    if i > h.len() || n.len() > h.len() - i {
        return false;
    }
    let mut k: usize = 0;
    while k < n.len()
        invariant
            i + n.len() <= h.len(),
            k <= n.len(),
            forall|j: int| 0 <= j < k ==> h@[i + j] == n@[j],
        decreases n.len() - k,
    {
        if h[i + k] != n[k] {
            proof {
                assert(h@.subrange(i as int, i + n@.len())[k as int] != n@[k as int]);
            }
            return false;
        }
        k += 1;
    }
    proof {
        assert(h@.subrange(i as int, i + n@.len()) =~= n@);
    }
    true
}

pub fn seq_contains(h: &[char], n: &[char]) -> (b: bool)
    ensures
        b == contains_sub(h@, n@),
{
    if n.len() > h.len() {
        proof {
            assert forall|i: int| !occurs_at(h@, n@, i) by {}
        }
        return false;
    }
    let mut i: usize = 0;
    loop
        invariant
            n.len() <= h.len(),
            i <= h.len() - n.len(),
            forall|j: int| 0 <= j < i ==> !occurs_at(h@, n@, j),
        decreases h.len() - n.len() - i,
    {
        if occurs_at_exec(h, n, i) {
            return true;
        }
        if i == h.len() - n.len() {
            proof {
                assert forall|j: int| !occurs_at(h@, n@, j) by {
                    if 0 <= j < i {
                    } else {
                    }
                }
            }
            return false;
        }
        i += 1;
    }
}

pub fn seq_eq(a: &[char], b: &[char]) -> (r: bool)
    ensures
        r == (a@ == b@),
{
    if a.len() != b.len() {
        return false;
    }
    let r = seq_starts_with(a, b);
    proof {
        if r {
            assert(a@ =~= a@.take(b@.len() as int));
        } else {
            if a@ == b@ {
                assert(a@.take(b@.len() as int) =~= b@);
            }
        }
    }
    r
}

/// `str::contains` with a string pattern.
pub fn str_contains(h: &str, n: &str) -> (b: bool)
    ensures
        b == contains_sub(h@, n@),
{
    let hv = chars_of(h);
    let nv = chars_of(n);
    seq_contains(hv.as_slice(), nv.as_slice())
}

/// `str::contains` with a `char` pattern.
pub fn str_contains_char(h: &str, c: char) -> (b: bool)
    ensures
        b == h@.contains(c),
{
    let hv = chars_of(h);
    let mut i: usize = 0;
    while i < hv.len()
        invariant
            hv@ == h@,
            i <= hv.len(),
            forall|j: int| 0 <= j < i ==> hv@[j] != c,
        decreases hv.len() - i,
    {
        if hv[i] == c {
            proof {
                assert(h@[i as int] == c);
            }
            return true;
        }
        i += 1;
    }
    false
}

/// `str::starts_with` with a string pattern.
pub fn str_starts_with(h: &str, n: &str) -> (b: bool)
    ensures
        b == starts_with(h@, n@),
{
    let hv = chars_of(h);
    let nv = chars_of(n);
    seq_starts_with(hv.as_slice(), nv.as_slice())
}

/// `==` on string slices.
pub fn str_eq(a: &str, b: &str) -> (r: bool)
    ensures
        r == (a@ == b@),
{
    let av = chars_of(a);
    let bv = chars_of(b);
    seq_eq(av.as_slice(), bv.as_slice())
}

// ---------------------------------------------------------------------------
// Trimming
// ---------------------------------------------------------------------------

pub open spec fn trim_start(s: Seq<char>) -> Seq<char>
    decreases s.len(),
{
    if s.len() > 0 && is_ws(s[0]) {
        trim_start(s.drop_first())
    } else {
        s
    }
}

pub open spec fn trim_end(s: Seq<char>) -> Seq<char>
    decreases s.len(),
{
    if s.len() > 0 && is_ws(s.last()) {
        trim_end(s.drop_last())
    } else {
        s
    }
}

/// `str::trim`: leading and trailing white space removed.
pub open spec fn trim(s: Seq<char>) -> Seq<char> {
    trim_end(trim_start(s))
}

/// Bounds `(lo, hi)` such that `s[lo..hi]` is `s` with leading and trailing
/// white space removed.
pub fn trim_bounds(s: &[char]) -> (r: (usize, usize))
    ensures
        r.0 <= r.1 <= s.len(),
        s@.subrange(r.0 as int, r.1 as int) == trim(s@),
{
    let mut lo: usize = 0;
    proof {
        assert(s@.subrange(0, s@.len() as int) =~= s@);
    }
    while lo < s.len() && is_whitespace(s[lo])
        invariant
            lo <= s.len(),
            trim_start(s@) == trim_start(s@.subrange(lo as int, s@.len() as int)),
        decreases s.len() - lo,
    {
        proof {
            let t = s@.subrange(lo as int, s@.len() as int);
            assert(t.drop_first() =~= s@.subrange(lo + 1, s@.len() as int));
        }
        lo += 1;
    }
    proof {
        let t = s@.subrange(lo as int, s@.len() as int);
        assert(trim_start(t) == t);
    }
    let mut hi: usize = s.len();
    while hi > lo && is_whitespace(s[hi - 1])
        invariant
            lo <= hi <= s.len(),
            trim(s@) == trim_end(s@.subrange(lo as int, hi as int)),
        decreases hi,
    {
        proof {
            let t = s@.subrange(lo as int, hi as int);
            assert(t.drop_last() =~= s@.subrange(lo as int, hi - 1));
        }
        hi -= 1;
    }
    proof {
        let t = s@.subrange(lo as int, hi as int);
        assert(trim_end(t) == t);
    }
    (lo, hi)
}

/// `str::trim`, as characters.
pub fn trim_chars(s: &[char]) -> (r: Vec<char>)
    ensures
        r@ == trim(s@),
{
    let (lo, hi) = trim_bounds(s);
    let mut r: Vec<char> = Vec::new();
    let mut i = lo;
    while i < hi
        invariant
            lo <= i <= hi <= s.len(),
            r@ == s@.subrange(lo as int, i as int),
        decreases hi - i,
    {
        r.push(s[i]);
        proof {
            assert(s@.subrange(lo as int, i + 1) =~= s@.subrange(lo as int, i as int).push(s@[i as int]));
        }
        i += 1;
    }
    r
}

/// `str::trim`, as an owned string.
pub fn trim_str(s: &str) -> (r: String)
    ensures
        r@ == trim(s@),
{
    let v = chars_of(s);
    let t = trim_chars(v.as_slice());
    string_from_chars(t.as_slice())
}

// ---------------------------------------------------------------------------
// Splitting and joining
// ---------------------------------------------------------------------------

/// Pieces of `s` separated by `sep` (`str::split` with a `char`); there is
/// always at least one piece.
pub open spec fn split_on(s: Seq<char>, sep: char) -> Seq<Seq<char>>
    decreases s.len(),
{
    if s.len() == 0 {
        seq![Seq::<char>::empty()]
    } else {
        let p = split_on(s.drop_last(), sep);
        if s.last() == sep {
            p.push(Seq::<char>::empty())
        } else {
            p.update(p.len() - 1, p.last().push(s.last()))
        }
    }
}

pub proof fn lemma_split_on_nonempty(s: Seq<char>, sep: char)
    ensures
        split_on(s, sep).len() >= 1,
    decreases s.len(),
{
    if s.len() > 0 {
        lemma_split_on_nonempty(s.drop_last(), sep);
    }
}

/// A line with one trailing carriage return removed.
pub open spec fn strip_cr(l: Seq<char>) -> Seq<char> {
    if l.len() > 0 && l.last() == '\r' {
        l.drop_last()
    } else {
        l
    }
}

/// `str::lines`: split on `'\n'`, a final empty piece dropped, and one
/// trailing `'\r'` removed from each line.
pub open spec fn lines(s: Seq<char>) -> Seq<Seq<char>> {
    if s.len() == 0 {
        Seq::empty()
    } else {
        let parts = split_on(s, '\n');
        let kept = if s.last() == '\n' {
            parts.drop_last()
        } else {
            parts
        };
        kept.map_values(|l: Seq<char>| strip_cr(l))
    }
}

/// Pieces of `s` separated by `sep`.
pub fn split_chars(s: &[char], sep: char) -> (r: Vec<Vec<char>>)
    ensures
        r@.len() == split_on(s@, sep).len(),
        forall|k: int| 0 <= k < r@.len() ==> #[trigger] r@[k]@ == split_on(s@, sep)[k],
{
    let mut r: Vec<Vec<char>> = Vec::new();
    let mut cur: Vec<char> = Vec::new();
    let mut i: usize = 0;
    while i < s.len()
        invariant
            i <= s.len(),
            r@.len() + 1 == split_on(s@.take(i as int), sep).len(),
            forall|k: int| 0 <= k < r@.len() ==> #[trigger] r@[k]@ == split_on(s@.take(i as int), sep)[k],
            cur@ == split_on(s@.take(i as int), sep).last(),
        decreases s.len() - i,
    {
        proof {
            assert(s@.take(i + 1).drop_last() =~= s@.take(i as int));
            lemma_split_on_nonempty(s@.take(i as int), sep);
        }
        if s[i] == sep {
            let done = cur;
            r.push(done);
            cur = Vec::new();
        } else {
            cur.push(s[i]);
        }
        i += 1;
    }
    proof {
        assert(s@.take(s@.len() as int) =~= s@);
        lemma_split_on_nonempty(s@, sep);
    }
    r.push(cur);
    r
}

/// Lines of `s` (`str::lines`).
pub fn lines_of(s: &[char]) -> (r: Vec<Vec<char>>)
    ensures
        r@.len() == lines(s@).len(),
        forall|k: int| 0 <= k < r@.len() ==> #[trigger] r@[k]@ == lines(s@)[k],
{
    if s.len() == 0 {
        return Vec::new();
    }
    let parts = split_chars(s, '\n');
    proof {
        lemma_split_on_nonempty(s@, '\n');
    }
    let n = if s[s.len() - 1] == '\n' { parts.len() - 1 } else { parts.len() };
    let ghost kept = if s@.last() == '\n' {
        split_on(s@, '\n').drop_last()
    } else {
        split_on(s@, '\n')
    };
    let mut r: Vec<Vec<char>> = Vec::new();
    let mut i: usize = 0;
    while i < n
        invariant
            n == kept.len(),
            n <= parts@.len(),
            parts@.len() == split_on(s@, '\n').len(),
            forall|k: int| 0 <= k < parts@.len() ==> #[trigger] parts@[k]@ == split_on(s@, '\n')[k],
            kept.len() <= split_on(s@, '\n').len(),
            forall|k: int| 0 <= k < kept.len() ==> #[trigger] kept[k] == split_on(s@, '\n')[k],
            i <= n,
            r@.len() == i,
            forall|k: int| 0 <= k < i ==> #[trigger] r@[k]@ == strip_cr(kept[k]),
        decreases n - i,
    {
        let p = &parts[i];
        let mut line: Vec<char> = Vec::new();
        let mut m = p.len();
        if m > 0 && p[m - 1] == '\r' {
            m = m - 1;
        }
        let mut j: usize = 0;
        while j < m
            invariant
                m <= p@.len(),
                j <= m,
                line@ == p@.take(j as int),
            decreases m - j,
        {
            line.push(p[j]);
            proof {
                assert(p@.take(j + 1) =~= p@.take(j as int).push(p@[j as int]));
            }
            j += 1;
        }
        proof {
            assert(line@ =~= strip_cr(p@));
        }
        r.push(line);
        i += 1;
    }
    r
}

/// Tokens of `s` separated by white space (`str::split_whitespace`).
pub open spec fn ws_tokens(s: Seq<char>) -> Seq<Seq<char>>
    decreases s.len(),
{
    if s.len() == 0 {
        Seq::empty()
    } else {
        let p = ws_tokens(s.drop_last());
        let c = s.last();
        if is_ws(c) {
            p
        } else if s.len() >= 2 && !is_ws(s[s.len() - 2]) {
            p.update(p.len() - 1, p.last().push(c))
        } else {
            p.push(seq![c])
        }
    }
}

pub proof fn lemma_ws_tokens_nonempty_end(s: Seq<char>)
    requires
        s.len() > 0,
        !is_ws(s.last()),
    ensures
        ws_tokens(s).len() >= 1,
    decreases s.len(),
{
    if s.len() >= 2 && !is_ws(s[s.len() - 2]) {
        lemma_ws_tokens_nonempty_end(s.drop_last());
    }
}

/// White-space separated tokens of `s`.
pub fn split_whitespace(s: &[char]) -> (r: Vec<Vec<char>>)
    ensures
        r@.len() == ws_tokens(s@).len(),
        forall|k: int| 0 <= k < r@.len() ==> #[trigger] r@[k]@ == ws_tokens(s@)[k],
{
    let mut r: Vec<Vec<char>> = Vec::new();
    let mut i: usize = 0;
    while i < s.len()
        invariant
            i <= s.len(),
            r@.len() == ws_tokens(s@.take(i as int)).len(),
            forall|k: int| 0 <= k < r@.len() ==> #[trigger] r@[k]@ == ws_tokens(s@.take(i as int))[k],
        decreases s.len() - i,
    {
        proof {
            assert(s@.take(i + 1).drop_last() =~= s@.take(i as int));
        }
        let c = s[i];
        if is_whitespace(c) {
        } else if i >= 1 && !is_whitespace(s[i - 1]) {
            proof {
                assert(s@.take(i as int).last() == s@[i - 1]);
                lemma_ws_tokens_nonempty_end(s@.take(i as int));
            }
            let last = r.len() - 1;
            let mut tok = r.remove(last);
            tok.push(c);
            r.push(tok);
            proof {
                let p = ws_tokens(s@.take(i as int));
                assert(ws_tokens(s@.take(i + 1)) == p.update(p.len() - 1, p.last().push(c)));
            }
        } else {
            let mut tok: Vec<char> = Vec::new();
            tok.push(c);
            r.push(tok);
            proof {
                assert(tok@ =~= seq![c]);
            }
        }
        i += 1;
    }
    proof {
        assert(s@.take(s@.len() as int) =~= s@);
    }
    r
}

/// `sep`-joined pieces (`[T]::join`).
pub open spec fn join(parts: Seq<Seq<char>>, sep: Seq<char>) -> Seq<char>
    decreases parts.len(),
{
    if parts.len() == 0 {
        Seq::empty()
    } else if parts.len() == 1 {
        parts[0]
    } else {
        join(parts.drop_last(), sep) + sep + parts.last()
    }
}


// ---------------------------------------------------------------------------
// Byte-bounded prefixes
// ---------------------------------------------------------------------------

/// Number of leading characters of `s` whose UTF-8 encoding fits in `max`
/// bytes, i.e. the longest prefix ending on a character boundary at or
/// before byte `max`.
pub open spec fn prefix_within(s: Seq<char>, max: nat) -> nat
    decreases s.len(),
{
    if s.len() == 0 || char_width(s[0]) > max {
        0
    } else {
        1 + prefix_within(s.drop_first(), (max - char_width(s[0])) as nat)
    }
}

pub proof fn lemma_prefix_within_bounds(s: Seq<char>, max: nat)
    ensures
        prefix_within(s, max) <= s.len(),
        utf8_len(s.take(prefix_within(s, max) as int)) <= max,
        utf8_len(s) <= max ==> prefix_within(s, max) == s.len(),
    decreases s.len(),
{
    if s.len() == 0 {
        assert(s.take(0) =~= Seq::<char>::empty());
    } else if char_width(s[0]) > max {
        assert(s.take(0) =~= Seq::<char>::empty());
    } else {
        let r = s.drop_first();
        let m = (max - char_width(s[0])) as nat;
        lemma_prefix_within_bounds(r, m);
        let k = prefix_within(r, m);
        assert(s.take(k + 1int).drop_first() =~= r.take(k as int));
        assert(s.take(k + 1int)[0] == s[0]);
    }
}

/// `prefix_within` computed by walking the characters.
pub fn prefix_within_exec(s: &[char], max: usize) -> (k: usize)
    ensures
        k == prefix_within(s@, max as nat),
{
    let mut k: usize = 0;
    let mut room: usize = max;
    proof {
        assert(s@.skip(0) =~= s@);
    }
    while k < s.len() && char_len_utf8(s[k]) <= room
        invariant
            k <= s.len(),
            room <= max,
            prefix_within(s@, max as nat) == k + prefix_within(s@.skip(k as int), room as nat),
        decreases s.len() - k,
    {
        proof {
            let t = s@.skip(k as int);
            assert(t[0] == s@[k as int]);
            assert(t.drop_first() =~= s@.skip(k + 1));
        }
        room = room - char_len_utf8(s[k]);
        k += 1;
    }
    proof {
        let t = s@.skip(k as int);
        if k < s.len() {
            assert(t[0] == s@[k as int]);
        } else {
            assert(t.len() == 0);
        }
    }
    k
}

/// The first `n` characters of `s`.
pub fn take_chars(s: &[char], n: usize) -> (r: Vec<char>)
    requires
        n <= s.len(),
    ensures
        r@ == s@.take(n as int),
{
    let mut r: Vec<char> = Vec::new();
    let mut i: usize = 0;
    while i < n
        invariant
            n <= s.len(),
            i <= n,
            r@ == s@.take(i as int),
        decreases n - i,
    {
        r.push(s[i]);
        proof {
            assert(s@.take(i + 1) =~= s@.take(i as int).push(s@[i as int]));
        }
        i += 1;
    }
    r
}

/// `s` cut to at most `max_bytes` bytes, ending on a character boundary;
/// `s` itself when it already fits.
pub open spec fn safe_truncate_spec(s: Seq<char>, max_bytes: nat) -> Seq<char> {
    s.take(prefix_within(s, max_bytes) as int)
}

/// Returns a prefix of `s` of at most `max_bytes` bytes that ends on a
/// character boundary.  If `s` already fits, returns `s` unchanged.
pub fn safe_truncate(s: &str, max_bytes: usize) -> (r: String)
    ensures
        r@ == safe_truncate_spec(s@, max_bytes as nat),
        utf8_len(r@) <= max_bytes,
        utf8_len(s@) <= max_bytes ==> r@ == s@,
{
    let v = chars_of(s);
    let k = prefix_within_exec(v.as_slice(), max_bytes);
    proof {
        lemma_prefix_within_bounds(s@, max_bytes as nat);
        if utf8_len(s@) <= max_bytes {
            assert(s@.take(s@.len() as int) =~= s@);
        }
    }
    let t = take_chars(v.as_slice(), k);
    string_from_chars(t.as_slice())
}

// ---------------------------------------------------------------------------
// Decimal numerals
// ---------------------------------------------------------------------------

pub open spec fn digit_char(d: nat) -> char {
    (('0' as u32) + d) as char
}

/// Decimal representation of `n` without leading zeros (`"0"` for zero).
pub open spec fn decimal(n: nat) -> Seq<char>
    decreases n,
{
    if n < 10 {
        seq![digit_char(n)]
    } else {
        decimal(n / 10).push(digit_char(n % 10))
    }
}

/// `n` written in decimal (`u64::to_string`).
pub fn decimal_string(n: u64) -> (r: String)
    ensures
        r@ == decimal(n as nat),
{
    let mut digits: Vec<char> = Vec::new();
    let mut m = n;
    // digits collected least significant first
    let ghost mut acc: Seq<char> = Seq::empty();
    while m >= 10
        invariant
            decimal(n as nat) == decimal(m as nat) + digits@.reverse(),
        decreases m,
    {
        let d = (m % 10) as u32;
        let c = char_from_ascii(48 + d);
        proof {
            assert(decimal(m as nat) == decimal((m / 10) as nat).push(digit_char((m % 10) as nat)));
            assert(digits@.push(c).reverse() =~= seq![c] + digits@.reverse());
            assert(decimal((m / 10) as nat).push(c) + digits@.reverse() =~= decimal((m / 10) as nat) + (seq![c] + digits@.reverse()));
        }
        digits.push(c);
        m = m / 10;
    }
    let c = char_from_ascii(48 + m as u32);
    proof {
        assert(decimal(m as nat) == seq![digit_char(m as nat)]);
        assert(digits@.push(c).reverse() =~= seq![c] + digits@.reverse());
    }
    digits.push(c);
    let mut out: Vec<char> = Vec::new();
    let mut i = digits.len();
    while i > 0
        invariant
            i <= digits@.len(),
            out@ == digits@.reverse().take((digits@.len() - i) as int),
        decreases i,
    {
        i -= 1;
        out.push(digits[i]);
        proof {
            assert(digits@.reverse().take((digits@.len() - i) as int) =~= digits@.reverse().take(
                (digits@.len() - i - 1) as int,
            ).push(digits@[i as int]));
        }
    }
    proof {
        assert(digits@.reverse().take(digits@.len() as int) =~= digits@.reverse());
    }
    string_from_chars(out.as_slice())
}


// ---------------------------------------------------------------------------
// Splitting on a string separator
// ---------------------------------------------------------------------------

/// `str::split` with a non-empty string separator: occurrences are found
/// left to right without overlap; there is always at least one piece.
pub open spec fn split_str(s: Seq<char>, sep: Seq<char>) -> Seq<Seq<char>>
    decreases s.len(),
{
    if s.len() == 0 {
        seq![Seq::<char>::empty()]
    } else if sep.len() > 0 && starts_with(s, sep) {
        seq![Seq::<char>::empty()] + split_str(s.skip(sep.len() as int), sep)
    } else {
        let r = split_str(s.drop_first(), sep);
        r.update(0, seq![s[0]] + r[0])
    }
}

pub proof fn lemma_split_str_nonempty(s: Seq<char>, sep: Seq<char>)
    ensures
        split_str(s, sep).len() >= 1,
    decreases s.len(),
{
    if s.len() == 0 {
    } else if sep.len() > 0 && starts_with(s, sep) {
        lemma_split_str_nonempty(s.skip(sep.len() as int), sep);
    } else {
        lemma_split_str_nonempty(s.drop_first(), sep);
    }
}

/// Pieces of `s` separated by the non-empty separator `sep`.
pub fn split_str_exec(s: &[char], sep: &[char]) -> (r: Vec<Vec<char>>)
    requires
        sep.len() > 0,
    ensures
        r@.len() == split_str(s@, sep@).len(),
        forall|k: int| 0 <= k < r@.len() ==> #[trigger] r@[k]@ == split_str(s@, sep@)[k],
{
    let mut done: Vec<Vec<char>> = Vec::new();
    let mut cur: Vec<char> = Vec::new();
    let mut i: usize = 0;
    proof {
        assert(s@.skip(0) =~= s@);
        lemma_split_str_nonempty(s@, sep@);
    }
    while i < s.len()
        invariant
            sep@.len() > 0,
            i <= s.len(),
            ({
                let rest = split_str(s@.skip(i as int), sep@);
                &&& rest.len() >= 1
                &&& split_str(s@, sep@).len() == done@.len() + rest.len()
                &&& forall|k: int| 0 <= k < done@.len() ==> #[trigger] done@[k]@ == split_str(s@, sep@)[k]
                &&& split_str(s@, sep@)[done@.len() as int] == cur@ + rest[0]
                &&& forall|k: int| 1 <= k < rest.len() ==> #[trigger] rest[k] == split_str(s@, sep@)[done@.len() + k]
            }),
        decreases s.len() - i,
    {
        let ghost t = s@.skip(i as int);
        if occurs_at_exec(s, sep, i) {
            proof {
                assert(t.take(sep@.len() as int) =~= s@.subrange(i as int, i + sep@.len()));
                assert(t.skip(sep@.len() as int) =~= s@.skip(i + sep@.len()));
                lemma_split_str_nonempty(s@.skip(i + sep@.len()), sep@);
                let r2 = split_str(s@.skip(i + sep@.len()), sep@);
                assert(split_str(t, sep@) == seq![Seq::<char>::empty()] + r2);
                assert(cur@ + Seq::<char>::empty() =~= cur@);
                assert(Seq::<char>::empty() + r2[0] =~= r2[0]);
                let rest = split_str(t, sep@);
                let whole = split_str(s@, sep@);
                let d = done@.len() as int;
                assert forall|k: int| 1 <= k < r2.len() implies #[trigger] r2[k] == whole[d + 1 + k] by {
                    assert(rest[k + 1] == r2[k]);
                    assert(rest[k + 1] == whole[d + (k + 1)]);
                }
                assert(rest[1] == r2[0]);
                assert(rest[1] == whole[d + 1]);
            }
            let ghost old_done = done@;
            let piece = cur;
            done.push(piece);
            proof {
                assert forall|k: int| 0 <= k < done@.len() implies #[trigger] done@[k]@ == split_str(s@, sep@)[k] by {
                    if k < old_done.len() {
                        assert(done@[k] == old_done[k]);
                    }
                }
            }
            cur = Vec::new();
            i = i + sep.len();
        } else {
            proof {
                if starts_with(t, sep@) {
                    assert(t.take(sep@.len() as int) =~= s@.subrange(i as int, i + sep@.len()));
                }
                assert(t.drop_first() =~= s@.skip(i + 1));
                lemma_split_str_nonempty(s@.skip(i + 1), sep@);
                let r2 = split_str(s@.skip(i + 1), sep@);
                assert(t[0] == s@[i as int]);
                assert(cur@.push(s@[i as int]) + r2[0] =~= cur@ + (seq![s@[i as int]] + r2[0]));
                let rest = split_str(t, sep@);
                let whole = split_str(s@, sep@);
                let d = done@.len() as int;
                assert(rest == r2.update(0, seq![t[0]] + r2[0]));
                assert forall|k: int| 1 <= k < r2.len() implies #[trigger] r2[k] == whole[d + k] by {
                    assert(rest[k] == r2[k]);
                }
            }
            cur.push(s[i]);
            i += 1;
        }
    }
    proof {
        assert(s@.skip(i as int) =~= Seq::<char>::empty());
        assert(cur@ + Seq::<char>::empty() =~= cur@);
    }
    done.push(cur);
    done
}

} // verus!
