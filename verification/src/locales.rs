//! Locale-aware entity detection patterns and a script-based language
//! heuristic.
//!
//! The heuristic classifies each character into a coarse Unicode script,
//! counts the characters of each script and picks the dominant one; the
//! resulting BCP 47 code is resolved against a [`LocaleRegistry`] to obtain
//! the entity patterns of that language.  Patterns of several languages can
//! be merged, with duplicates removed in first-occurrence order.
use vstd::prelude::*;
use crate::text::{
    chars_of, copy_string, lowercase, starts_with, str_eq, str_starts_with, str_views, to_lowercase,
};

verus! {

broadcast use vstd::string::group_string_axioms;

// ---------------------------------------------------------------------------
// Script classification
// ---------------------------------------------------------------------------

/// Number of script classes the heuristic distinguishes.
pub const SCRIPT_CLASSES: usize = 6;

/// Script class of a character: 0 Hangul, 1 Hiragana, 2 Katakana, 3 CJK
/// ideographs, 4 Cyrillic, 5 Latin; -1 for everything else (punctuation,
/// digits, whitespace, other scripts).
pub open spec fn script_index(c: char) -> int {
    let cp = c as u32;
    if (0xAC00 <= cp <= 0xD7AF) || (0x1100 <= cp <= 0x11FF) || (0x3130 <= cp <= 0x318F) || (0xA960
        <= cp <= 0xA97F) || (0xD7B0 <= cp <= 0xD7FF) {
        0
    } else if 0x3040 <= cp <= 0x309F {
        1
    } else if (0x30A0 <= cp <= 0x30FF) || (0x31F0 <= cp <= 0x31FF) {
        2
    } else if (0x4E00 <= cp <= 0x9FFF) || (0x3400 <= cp <= 0x4DBF) || (0x20000 <= cp <= 0x2A6DF) {
        3
    } else if (0x0400 <= cp <= 0x04FF) || (0x0500 <= cp <= 0x052F) || (0x2DE0 <= cp <= 0x2DFF) || (
    0xA640 <= cp <= 0xA69F) {
        4
    } else if (0x0041 <= cp <= 0x005A) || (0x0061 <= cp <= 0x007A) || (0x00C0 <= cp <= 0x024F) || (
    0x1E00 <= cp <= 0x1EFF) {
        5
    } else {
        -1
    }
}

/// Label of a script class.
pub open spec fn script_name(i: int) -> Seq<char> {
    if i == 0 {
        "hangul"@
    } else if i == 1 {
        "hiragana"@
    } else if i == 2 {
        "katakana"@
    } else if i == 3 {
        "cjk"@
    } else if i == 4 {
        "cyrillic"@
    } else {
        "latin"@
    }
}

/// BCP 47 code of the language a script class stands for.
pub open spec fn script_locale(i: int) -> Seq<char> {
    if i == 0 {
        "ko"@
    } else if i == 1 || i == 2 {
        "ja"@
    } else if i == 3 {
        "zh-CN"@
    } else if i == 4 {
        "ru"@
    } else {
        "en"@
    }
}

/// Locale for a script label; unknown labels map to English.
pub open spec fn label_locale(label: Seq<char>) -> Seq<char> {
    if label == "hangul"@ {
        "ko"@
    } else if label == "hiragana"@ || label == "katakana"@ {
        "ja"@
    } else if label == "cjk"@ {
        "zh-CN"@
    } else if label == "cyrillic"@ {
        "ru"@
    } else {
        "en"@
    }
}

fn script_index_exec(ch: char) -> (r: usize)
    ensures
        r <= SCRIPT_CLASSES,
        r < SCRIPT_CLASSES <==> script_index(ch) >= 0,
        r < SCRIPT_CLASSES ==> r == script_index(ch),
{
    let cp = ch as u32;
    if (0xAC00 <= cp && cp <= 0xD7AF) || (0x1100 <= cp && cp <= 0x11FF) || (0x3130 <= cp && cp
        <= 0x318F) || (0xA960 <= cp && cp <= 0xA97F) || (0xD7B0 <= cp && cp <= 0xD7FF) {
        0
    } else if 0x3040 <= cp && cp <= 0x309F {
        1
    } else if (0x30A0 <= cp && cp <= 0x30FF) || (0x31F0 <= cp && cp <= 0x31FF) {
        2
    } else if (0x4E00 <= cp && cp <= 0x9FFF) || (0x3400 <= cp && cp <= 0x4DBF) || (0x20000 <= cp
        && cp <= 0x2A6DF) {
        3
    } else if (0x0400 <= cp && cp <= 0x04FF) || (0x0500 <= cp && cp <= 0x052F) || (0x2DE0 <= cp
        && cp <= 0x2DFF) || (0xA640 <= cp && cp <= 0xA69F) {
        4
    } else if (0x0041 <= cp && cp <= 0x005A) || (0x0061 <= cp && cp <= 0x007A) || (0x00C0 <= cp
        && cp <= 0x024F) || (0x1E00 <= cp && cp <= 0x1EFF) {
        5
    } else {
        6
    }
}

fn script_name_exec(i: usize) -> (r: &'static str)
    requires
        i < SCRIPT_CLASSES,
    ensures
        r@ == script_name(i as int),
{
    if i == 0 {
        "hangul"
    } else if i == 1 {
        "hiragana"
    } else if i == 2 {
        "katakana"
    } else if i == 3 {
        "cjk"
    } else if i == 4 {
        "cyrillic"
    } else {
        "latin"
    }
}

fn script_locale_exec(i: usize) -> (r: &'static str)
    ensures
        r@ == script_locale(i as int),
{
    if i == 0 {
        "ko"
    } else if i == 1 || i == 2 {
        "ja"
    } else if i == 3 {
        "zh-CN"
    } else if i == 4 {
        "ru"
    } else {
        "en"
    }
}

/// Classify a character into a coarse script label (`"hangul"`,
/// `"hiragana"`, `"katakana"`, `"cjk"`, `"cyrillic"` or `"latin"`);
/// `None` for punctuation, digits, whitespace and other scripts.
pub fn classify_char_script(ch: char) -> (r: Option<&'static str>)
    ensures
        r is None <==> script_index(ch) < 0,
        r matches Some(label) ==> label@ == script_name(script_index(ch)),
{
    let i = script_index_exec(ch);
    if i < SCRIPT_CLASSES {
        Some(script_name_exec(i))
    } else {
        None
    }
}

/// Map a script label to a BCP 47 locale code; unknown labels give `"en"`.
pub fn script_to_locale(script: &str) -> (r: &'static str)
    ensures
        r@ == label_locale(script@),
{
    if str_eq(script, "hangul") {
        "ko"
    } else if str_eq(script, "hiragana") || str_eq(script, "katakana") {
        "ja"
    } else if str_eq(script, "cjk") {
        "zh-CN"
    } else if str_eq(script, "cyrillic") {
        "ru"
    } else {
        "en"
    }
}

// ---------------------------------------------------------------------------
// Language heuristic
// ---------------------------------------------------------------------------

/// Number of characters of script class `i` in `s`.
pub open spec fn script_count(s: Seq<char>, i: int) -> nat
    decreases s.len(),
{
    if s.len() == 0 {
        0
    } else {
        script_count(s.drop_last(), i) + if script_index(s.last()) == i {
            1nat
        } else {
            0nat
        }
    }
}

/// Position of the first character of script class `i` in `s` (meaningful
/// when there is one).
pub open spec fn script_first(s: Seq<char>, i: int) -> nat
    decreases s.len(),
{
    if s.len() == 0 {
        0
    } else if script_count(s.drop_last(), i) == 0 {
        (s.len() - 1) as nat
    } else {
        script_first(s.drop_last(), i)
    }
}

/// Script `a` is ahead of script `b` in `s`: it has more characters, or as
/// many and it appears first.
pub open spec fn script_beats(s: Seq<char>, a: int, b: int) -> bool {
    script_count(s, a) > script_count(s, b) || (script_count(s, a) == script_count(s, b)
        && script_first(s, a) < script_first(s, b))
}

/// `w` is the dominant script of `s`: present, and ahead of every other
/// present script.
pub open spec fn is_dominant(s: Seq<char>, w: int) -> bool {
    &&& 0 <= w < SCRIPT_CLASSES
    &&& script_count(s, w) > 0
    &&& forall|l: int|
        0 <= l < SCRIPT_CLASSES && l != w && #[trigger] script_count(s, l) > 0 ==> script_beats(
            s,
            w,
            l,
        )
}

/// The language the heuristic detects in `s`: the locale of the dominant
/// script, or English when no character belongs to a known script.
pub open spec fn detected_locale(s: Seq<char>) -> Seq<char> {
    if exists|w: int| is_dominant(s, w) {
        script_locale(choose|w: int| is_dominant(s, w))
    } else {
        "en"@
    }
}

proof fn lemma_count_take_step(s: Seq<char>, k: int, i: int)
    requires
        0 <= k < s.len(),
    ensures
        script_count(s.take(k + 1), i) == script_count(s.take(k), i) + if script_index(s[k]) == i {
            1nat
        } else {
            0nat
        },
        script_count(s.take(k), i) == 0 && script_index(s[k]) == i ==> script_first(
            s.take(k + 1),
            i,
        ) == k,
        script_count(s.take(k), i) > 0 ==> script_first(s.take(k + 1), i) == script_first(
            s.take(k),
            i,
        ),
{
    assert(s.take(k + 1).drop_last() =~= s.take(k));
}

/// A present script's first position holds a character of that script.
pub proof fn lemma_first_is_of_script(s: Seq<char>, i: int)
    requires
        script_count(s, i) > 0,
    ensures
        script_first(s, i) < s.len(),
        script_index(s[script_first(s, i) as int]) == i,
    decreases s.len(),
{
    if script_count(s.drop_last(), i) > 0 {
        lemma_first_is_of_script(s.drop_last(), i);
    }
}

/// At most one script is dominant.
pub proof fn lemma_dominant_unique(s: Seq<char>, a: int, b: int)
    requires
        is_dominant(s, a),
        is_dominant(s, b),
    ensures
        a == b,
{
    if a != b {
        assert(script_count(s, b) > 0);
        assert(script_count(s, a) > 0);
    }
}

/// Detect the language of the first `n` characters of `s`.
fn detect_prefix(s: &[char], n: usize) -> (r: &'static str)
    requires
        n <= s@.len(),
    ensures
        r@ == detected_locale(s@.take(n as int)),
{
    let mut counts: Vec<usize> = vec![0, 0, 0, 0, 0, 0];
    let mut firsts: Vec<usize> = vec![0, 0, 0, 0, 0, 0];
    let mut k: usize = 0;
    while k < n
        invariant
            k <= n <= s@.len(),
            counts@.len() == SCRIPT_CLASSES,
            firsts@.len() == SCRIPT_CLASSES,
            forall|i: int|
                0 <= i < SCRIPT_CLASSES ==> #[trigger] counts@[i] == script_count(s@.take(k as int), i),
            forall|i: int|
                0 <= i < SCRIPT_CLASSES && counts@[i] > 0 ==> #[trigger] firsts@[i] == script_first(
                    s@.take(k as int),
                    i,
                ),
            forall|i: int| 0 <= i < SCRIPT_CLASSES ==> #[trigger] counts@[i] <= k,
        decreases n - k,
    {
        let idx = script_index_exec(s[k]);
        proof {
            assert forall|i: int| 0 <= i < SCRIPT_CLASSES implies script_count(s@.take(k + 1), i)
                == script_count(s@.take(k as int), i) + if script_index(s@[k as int]) == i {
                1nat
            } else {
                0nat
            } by {
                lemma_count_take_step(s@, k as int, i);
            }
        }
        if idx < SCRIPT_CLASSES {
            if counts[idx] == 0 {
                firsts.set(idx, k);
            }
            let c = counts[idx];
            counts.set(idx, c + 1);
        }
        proof {
            assert forall|i: int|
                0 <= i < SCRIPT_CLASSES && counts@[i] > 0 implies #[trigger] firsts@[i] == script_first(
                s@.take(k + 1),
                i,
            ) by {
                lemma_count_take_step(s@, k as int, i);
            }
        }
        k += 1;
    }
    let ghost t = s@.take(n as int);
    let mut best: usize = SCRIPT_CLASSES;
    let mut i: usize = 0;
    while i < SCRIPT_CLASSES
        invariant
            i <= SCRIPT_CLASSES,
            best <= SCRIPT_CLASSES,
            t == s@.take(n as int),
            counts@.len() == SCRIPT_CLASSES,
            firsts@.len() == SCRIPT_CLASSES,
            forall|j: int| 0 <= j < SCRIPT_CLASSES ==> #[trigger] counts@[j] == script_count(t, j),
            forall|j: int|
                0 <= j < SCRIPT_CLASSES && counts@[j] > 0 ==> #[trigger] firsts@[j] == script_first(t, j),
            best == SCRIPT_CLASSES ==> forall|j: int| 0 <= j < i ==> #[trigger] script_count(t, j) == 0,
            best < SCRIPT_CLASSES ==> best < i && script_count(t, best as int) > 0,
            best < SCRIPT_CLASSES ==> forall|j: int|
                0 <= j < i && j != best && #[trigger] script_count(t, j) > 0 ==> script_beats(
                    t,
                    best as int,
                    j,
                ),
        decreases SCRIPT_CLASSES - i,
    {
        if counts[i] > 0 {
            if best == SCRIPT_CLASSES {
                best = i;
            } else if counts[i] > counts[best] || (counts[i] == counts[best] && firsts[i]
                < firsts[best]) {
                proof {
                    assert forall|j: int|
                        0 <= j < i + 1 && j != i && #[trigger] script_count(t, j) > 0 implies script_beats(
                        t,
                        i as int,
                        j,
                    ) by {
                        if j != best {
                            assert(script_beats(t, best as int, j));
                        }
                    }
                }
                best = i;
            } else {
                proof {
                    lemma_first_is_of_script(t, i as int);
                    lemma_first_is_of_script(t, best as int);
                    assert(script_beats(t, best as int, i as int));
                }
            }
        }
        i += 1;
    }
    if best == SCRIPT_CLASSES {
        proof {
            assert forall|w: int| !is_dominant(t, w) by {
                if 0 <= w < SCRIPT_CLASSES {
                    assert(script_count(t, w) == 0);
                }
            }
        }
        "en"
    } else {
        proof {
            assert(is_dominant(t, best as int));
            let w = choose|w: int| is_dominant(t, w);
            lemma_dominant_unique(t, w, best as int);
        }
        script_locale_exec(best)
    }
}

/// Heuristic language detection based on Unicode script ranges.
///
/// Counts the characters of each known script and returns the locale of
/// the dominant one; when two scripts are tied the one that appears first
/// in the text wins.  Text with no character of a known script gives
/// `"en"`.  Hangul gives `"ko"`, Hiragana and Katakana `"ja"`, CJK
/// ideographs `"zh-CN"`, Cyrillic `"ru"` and Latin `"en"`.
pub fn detect_language_heuristic(text: &str) -> (r: &'static str)
    ensures
        r@ == detected_locale(text@),
{
    let cs = chars_of(text);
    proof {
        assert(cs@.take(cs@.len() as int) =~= cs@);
    }
    detect_prefix(cs.as_slice(), cs.len())
}

/// Detect the language of the first `max_bytes` bytes of `text` (cut back
/// to a character boundary).
pub fn detect_language_sample(text: &str, max_bytes: usize) -> (r: &'static str)
    ensures
        r@ == detected_locale(text@.take(crate::text::prefix_within(text@, max_bytes as nat) as int)),
{
    let cs = chars_of(text);
    let n = crate::text::prefix_within_exec(cs.as_slice(), max_bytes);
    proof {
        crate::text::lemma_prefix_within_bounds(text@, max_bytes as nat);
    }
    detect_prefix(cs.as_slice(), n)
}

/// A sample at least as long as the text, in bytes, detects what the whole
/// text does.
pub proof fn lemma_sample_of_whole_text(s: Seq<char>, max_bytes: nat)
    requires
        crate::text::utf8_len(s) <= max_bytes,
    ensures
        detected_locale(s.take(crate::text::prefix_within(s, max_bytes) as int)) == detected_locale(s),
{
    crate::text::lemma_prefix_within_bounds(s, max_bytes);
    assert(s.take(s.len() as int) =~= s);
}

/// Text without a character of a known script is taken for English.
pub proof fn lemma_no_script_is_english(s: Seq<char>)
    requires
        forall|k: int| 0 <= k < s.len() ==> script_index(#[trigger] s[k]) < 0,
    ensures
        detected_locale(s) == "en"@,
{
    assert forall|w: int| !is_dominant(s, w) by {
        if is_dominant(s, w) {
            lemma_first_is_of_script(s, w);
            assert(script_index(s[script_first(s, w) as int]) == w);
        }
    }
}

// ---------------------------------------------------------------------------
// Locale data and registry
// ---------------------------------------------------------------------------

/// Codes of the locales that ship with the library, in registration order.
pub fn available_locales() -> (r: Vec<&'static str>)
    ensures
        r@.map_values(|c: &str| c@) == seq![
            "en"@, "fr"@, "de"@, "es"@, "ja"@, "zh-CN"@, "ko"@, "ru"@, "pt-BR"@, "it"@, "id"@,
            "zh-TW"@, "be"@,
        ],
{
    let r = vec!["en", "fr", "de", "es", "ja", "zh-CN", "ko", "ru", "pt-BR", "it", "id", "zh-TW", "be"];
    proof {
        assert(r@.map_values(|c: &str| c@) =~= seq![
            "en"@, "fr"@, "de"@, "es"@, "ja"@, "zh-CN"@, "ko"@, "ru"@, "pt-BR"@, "it"@, "id"@,
            "zh-TW"@, "be"@,
        ]);
    }
    r
}

/// Entity-detection patterns of one locale.
pub struct EntityPatterns {
    pub candidate_pattern: String,
    pub multi_word_pattern: String,
    pub person_verb_patterns: Vec<String>,
    pub pronoun_patterns: Vec<String>,
    pub dialogue_patterns: Vec<String>,
    pub direct_address_pattern: String,
    pub project_verb_patterns: Vec<String>,
    pub stopwords: Vec<String>,
    pub boundary_chars: String,
}

/// One locale: its BCP 47 code, a human-readable label, a broad script hint
/// and its entity patterns.
pub struct LocaleData {
    pub lang: String,
    pub label: String,
    pub script: String,
    pub entity: EntityPatterns,
}

/// The loaded locales, each under the code it was registered with, in
/// registration order.
pub struct LocaleRegistry {
    pub entries: Vec<(String, LocaleData)>,
}

/// Registered codes, in order.
pub open spec fn codes_of(entries: Seq<(String, LocaleData)>) -> Seq<Seq<char>> {
    entries.map_values(|e: (String, LocaleData)| e.0@)
}

/// A lookup key finds a code registered under it exactly or under its
/// lower-cased form.
pub open spec fn key_matches(code: Seq<char>, key: Seq<char>) -> bool {
    code == key || lowercase(code) == key
}

/// Index of the last registered code that `key` finds (later
/// registrations take precedence), or -1.
pub open spec fn last_match(codes: Seq<Seq<char>>, key: Seq<char>) -> int
    decreases codes.len(),
{
    if codes.len() == 0 {
        -1
    } else if key_matches(codes.last(), key) {
        codes.len() - 1
    } else {
        last_match(codes.drop_last(), key)
    }
}

/// Index of the first registered code whose lower-cased form starts with
/// `primary`, or -1.
pub open spec fn first_prefix(codes: Seq<Seq<char>>, primary: Seq<char>) -> int
    decreases codes.len(),
{
    if codes.len() == 0 {
        -1
    } else if starts_with(lowercase(codes[0]), primary) {
        0
    } else {
        let r = first_prefix(codes.drop_first(), primary);
        if r < 0 {
            -1
        } else {
            r + 1
        }
    }
}

/// The primary sub-tag of a code: what precedes its first `'-'`.
pub open spec fn primary_subtag(code: Seq<char>) -> Seq<char> {
    crate::text::split_on(code, '-')[0]
}

/// Which registered locale a code resolves to: the locale registered under
/// the lower-cased code; else the first locale whose code starts with the
/// code's primary sub-tag; else English.
pub open spec fn resolve_index(codes: Seq<Seq<char>>, code: Seq<char>) -> int {
    let lower = lowercase(code);
    let exact = last_match(codes, lower);
    if exact >= 0 {
        exact
    } else {
        let f = first_prefix(codes, primary_subtag(lower));
        if f >= 0 {
            last_match(codes, codes[f])
        } else {
            last_match(codes, "en"@)
        }
    }
}

impl LocaleRegistry {
    /// A registry over the given entries.
    pub fn new(entries: Vec<(String, LocaleData)>) -> (r: Self)
        ensures
            r.entries@ == entries@,
    {
        LocaleRegistry { entries }
    }

    pub open spec fn codes(&self) -> Seq<Seq<char>> {
        codes_of(self.entries@)
    }

    /// English can be found, which every fallback relies on.
    pub open spec fn has_english(&self) -> bool {
        last_match(self.codes(), "en"@) >= 0
    }
}

proof fn lemma_last_match_bounds(codes: Seq<Seq<char>>, key: Seq<char>)
    ensures
        -1 <= last_match(codes, key) < codes.len(),
        last_match(codes, key) >= 0 ==> key_matches(codes[last_match(codes, key)], key),
    decreases codes.len(),
{
    if codes.len() > 0 && !key_matches(codes.last(), key) {
        lemma_last_match_bounds(codes.drop_last(), key);
    }
}

proof fn lemma_last_match_found(codes: Seq<Seq<char>>, key: Seq<char>, i: int)
    requires
        0 <= i < codes.len(),
        key_matches(codes[i], key),
    ensures
        last_match(codes, key) >= i,
    decreases codes.len(),
{
    if i < codes.len() - 1 && !key_matches(codes.last(), key) {
        lemma_last_match_found(codes.drop_last(), key, i);
    }
}

proof fn lemma_first_prefix_bounds(codes: Seq<Seq<char>>, p: Seq<char>)
    ensures
        -1 <= first_prefix(codes, p) < codes.len(),
    decreases codes.len(),
{
    if codes.len() > 0 && !starts_with(lowercase(codes[0]), p) {
        lemma_first_prefix_bounds(codes.drop_first(), p);
    }
}

/// A code found by its exact or lower-cased form always resolves within
/// the registry, and resolution of an English-holding registry never fails.
pub proof fn lemma_resolve_index_bounds(codes: Seq<Seq<char>>, code: Seq<char>)
    requires
        last_match(codes, "en"@) >= 0,
    ensures
        0 <= resolve_index(codes, code) < codes.len(),
{
    let lower = lowercase(code);
    lemma_last_match_bounds(codes, lower);
    lemma_last_match_bounds(codes, "en"@);
    let f = first_prefix(codes, primary_subtag(lower));
    lemma_first_prefix_bounds(codes, primary_subtag(lower));
    if f >= 0 {
        lemma_last_match_bounds(codes, codes[f]);
        lemma_last_match_found(codes, codes[f], f);
    }
}

/// Resolution ignores case: codes with the same lower-cased form resolve
/// to the same locale.
pub proof fn lemma_resolve_case_insensitive(codes: Seq<Seq<char>>, a: Seq<char>, b: Seq<char>)
    requires
        lowercase(a) == lowercase(b),
    ensures
        resolve_index(codes, a) == resolve_index(codes, b),
{
}

/// Index of the last entry that `key` finds.
fn find_last(registry: &LocaleRegistry, key: &str) -> (r: Option<usize>)
    ensures
        match r {
            Some(i) => i as int == last_match(registry.codes(), key@),
            None => last_match(registry.codes(), key@) < 0,
        },
{
    let ghost codes = registry.codes();
    let mut found: Option<usize> = None;
    let mut k: usize = 0;
    while k < registry.entries.len()
        invariant
            k <= registry.entries@.len(),
            codes == registry.codes(),
            codes.len() == registry.entries@.len(),
            match found {
                Some(i) => i as int == last_match(codes.take(k as int), key@),
                None => last_match(codes.take(k as int), key@) < 0,
            },
        decreases registry.entries.len() - k,
    {
        let code = &registry.entries[k].0;
        let lc = to_lowercase(code.as_str());
        proof {
            assert(codes.take(k + 1).drop_last() =~= codes.take(k as int));
            assert(codes.take(k + 1).last() == code@);
        }
        if str_eq(code.as_str(), key) || str_eq(lc.as_str(), key) {
            found = Some(k);
        }
        k += 1;
    }
    proof {
        assert(codes.take(codes.len() as int) =~= codes);
    }
    found
}

/// Resolve a BCP 47 code to a locale, ignoring case.  A code not
/// registered resolves through its primary sub-tag (so `"zh"` finds
/// `"zh-CN"`, the first registered), and otherwise falls back to English.
pub fn resolve<'a>(registry: &'a LocaleRegistry, code: &str) -> (r: &'a LocaleData)
    requires
        registry.has_english(),
    ensures
        0 <= resolve_index(registry.codes(), code@) < registry.entries@.len(),
        *r == registry.entries@[resolve_index(registry.codes(), code@)].1,
{
    let ghost codes = registry.codes();
    proof {
        lemma_resolve_index_bounds(codes, code@);
    }
    let lower = to_lowercase(code);
    match find_last(registry, lower.as_str()) {
        Some(i) => {
            return &registry.entries[i].1;
        },
        None => {},
    }
    let lower_chars = chars_of(lower.as_str());
    proof {
        crate::text::lemma_split_on_nonempty(lower_chars@, '-');
    }
    let parts = crate::text::split_chars(lower_chars.as_slice(), '-');
    let primary = crate::text::string_from_chars(parts[0].as_slice());
    let mut k: usize = 0;
    proof {
        assert(codes.skip(0) =~= codes);
    }
    while k < registry.entries.len()
        invariant
            k <= registry.entries@.len(),
            codes == registry.codes(),
            codes.len() == registry.entries@.len(),
            registry.has_english(),
            primary@ == primary_subtag(lower@),
            lower@ == lowercase(code@),
            last_match(codes, lower@) < 0,
            0 <= resolve_index(codes, code@) < codes.len(),
            first_prefix(codes, primary@) == ({
                let f = first_prefix(codes.skip(k as int), primary@);
                if f < 0 {
                    -1
                } else {
                    f + k
                }
            }),
        decreases registry.entries.len() - k,
    {
        let code_k = &registry.entries[k].0;
        let lc = to_lowercase(code_k.as_str());
        let hit = str_starts_with(lc.as_str(), primary.as_str());
        proof {
            assert(codes.skip(k as int)[0] == code_k@);
            assert(codes.skip(k as int).drop_first() =~= codes.skip(k + 1));
            assert(hit == starts_with(lowercase(codes.skip(k as int)[0]), primary@));
            if !hit {
                let r = first_prefix(codes.skip(k + 1), primary@);
                assert(first_prefix(codes.skip(k as int), primary@) == if r < 0 {
                    -1
                } else {
                    r + 1
                });
            }
        }
        if hit {
            proof {
                assert(first_prefix(codes, primary@) == k);
                lemma_last_match_found(codes, code_k@, k as int);
                lemma_last_match_bounds(codes, code_k@);
            }
            match find_last(registry, code_k.as_str()) {
                Some(j) => {
                    return &registry.entries[j].1;
                },
                None => {},
            }
        }
        k += 1;
    }
    proof {
        assert(codes.skip(codes.len() as int) =~= Seq::<Seq<char>>::empty());
        lemma_last_match_bounds(codes, "en"@);
    }
    match find_last(registry, "en") {
        Some(j) => &registry.entries[j].1,
        None => &registry.entries[0].1,
    }
}

// ---------------------------------------------------------------------------
// Merged patterns
// ---------------------------------------------------------------------------

/// Entity patterns of several locales merged together.  Single patterns
/// are listed per locale; pattern lists and stopwords hold each pattern
/// once, in order of first occurrence.
pub struct MergedPatterns {
    pub candidate_patterns: Vec<String>,
    pub multi_word_patterns: Vec<String>,
    pub person_verb_patterns: Vec<String>,
    pub pronoun_patterns: Vec<String>,
    pub dialogue_patterns: Vec<String>,
    pub direct_address_patterns: Vec<String>,
    pub project_verb_patterns: Vec<String>,
    pub stopwords: Vec<String>,
}

/// `s` with every repeated element dropped after its first occurrence.
pub open spec fn dedup(s: Seq<Seq<char>>) -> Seq<Seq<char>>
    decreases s.len(),
{
    if s.len() == 0 {
        Seq::empty()
    } else {
        let d = dedup(s.drop_last());
        if d.contains(s.last()) {
            d
        } else {
            d.push(s.last())
        }
    }
}

/// A single pattern as a list: empty when the pattern is.
pub open spec fn nonempty_list(p: Seq<char>) -> Seq<Seq<char>> {
    if p.len() > 0 {
        seq![p]
    } else {
        Seq::empty()
    }
}

/// One field of a locale's patterns, as a list: 0 candidate, 1 multi-word,
/// 2 direct address, 3 person verbs, 4 pronouns, 5 dialogue, 6 project
/// verbs, 7 stopwords.
pub open spec fn pattern_field(e: EntityPatterns, which: int) -> Seq<Seq<char>> {
    if which == 0 {
        nonempty_list(e.candidate_pattern@)
    } else if which == 1 {
        nonempty_list(e.multi_word_pattern@)
    } else if which == 2 {
        nonempty_list(e.direct_address_pattern@)
    } else if which == 3 {
        str_views(e.person_verb_patterns@)
    } else if which == 4 {
        str_views(e.pronoun_patterns@)
    } else if which == 5 {
        str_views(e.dialogue_patterns@)
    } else if which == 6 {
        str_views(e.project_verb_patterns@)
    } else {
        str_views(e.stopwords@)
    }
}

/// The patterns a code resolves to.
pub open spec fn entity_for(entries: Seq<(String, LocaleData)>, lang: Seq<char>) -> EntityPatterns {
    entries[resolve_index(codes_of(entries), lang)].1.entity
}

/// One field of the patterns of each language, concatenated in order.
pub open spec fn gather(entries: Seq<(String, LocaleData)>, langs: Seq<Seq<char>>, which: int) -> Seq<
    Seq<char>,
>
    decreases langs.len(),
{
    if langs.len() == 0 {
        Seq::empty()
    } else {
        gather(entries, langs.drop_last(), which) + pattern_field(entity_for(entries, langs.last()), which)
    }
}

/// What merging the patterns of `langs` gives, field by field.
pub open spec fn merged_ok(m: MergedPatterns, entries: Seq<(String, LocaleData)>, langs: Seq<Seq<char>>) -> bool {
    &&& str_views(m.candidate_patterns@) == dedup(gather(entries, langs, 0))
    &&& str_views(m.multi_word_patterns@) == dedup(gather(entries, langs, 1))
    &&& str_views(m.direct_address_patterns@) == dedup(gather(entries, langs, 2))
    &&& str_views(m.person_verb_patterns@) == dedup(gather(entries, langs, 3))
    &&& str_views(m.pronoun_patterns@) == dedup(gather(entries, langs, 4))
    &&& str_views(m.dialogue_patterns@) == dedup(gather(entries, langs, 5))
    &&& str_views(m.project_verb_patterns@) == dedup(gather(entries, langs, 6))
    &&& str_views(m.stopwords@) == dedup(gather(entries, langs, 7))
}

/// Whether `v` holds a string equal to `s`.
fn contains_string(v: &Vec<String>, s: &String) -> (r: bool)
    ensures
        r == str_views(v@).contains(s@),
{
    let mut k: usize = 0;
    while k < v.len()
        invariant
            k <= v@.len(),
            forall|j: int| 0 <= j < k ==> v@[j]@ != s@,
        decreases v.len() - k,
    {
        if str_eq(v[k].as_str(), s.as_str()) {
            proof {
                assert(str_views(v@)[k as int] == s@);
            }
            return true;
        }
        k += 1;
    }
    proof {
        if str_views(v@).contains(s@) {
            let j = choose|j: int| 0 <= j < str_views(v@).len() && str_views(v@)[j] == s@;
            assert(v@[j]@ == s@);
        }
    }
    false
}

/// Appends to `dst` each string of `src` it does not hold yet.
fn append_unique(dst: &mut Vec<String>, src: &Vec<String>, Ghost(base): Ghost<Seq<Seq<char>>>)
    requires
        str_views(old(dst)@) == dedup(base),
    ensures
        str_views(final(dst)@) == dedup(base + str_views(src@)),
{
    let mut k: usize = 0;
    while k < src.len()
        invariant
            k <= src@.len(),
            str_views(dst@) == dedup(base + str_views(src@).take(k as int)),
        decreases src.len() - k,
    {
        let ghost prev = base + str_views(src@).take(k as int);
        proof {
            assert((base + str_views(src@).take(k + 1)).drop_last() =~= prev);
            assert((base + str_views(src@).take(k + 1)).last() == src@[k as int]@);
        }
        if !contains_string(dst, &src[k]) {
            let ghost before = dst@;
            dst.push(copy_string(&src[k]));
            proof {
                assert(str_views(dst@) =~= str_views(before).push(src@[k as int]@));
            }
        }
        k += 1;
    }
    proof {
        assert(str_views(src@).take(src@.len() as int) =~= str_views(src@));
    }
}

/// Appends `p` unless it is empty or already held.
fn push_nonempty(dst: &mut Vec<String>, p: &String, Ghost(base): Ghost<Seq<Seq<char>>>)
    requires
        str_views(old(dst)@) == dedup(base),
    ensures
        str_views(final(dst)@) == dedup(base + nonempty_list(p@)),
{
    if !p.as_str().is_empty() {
        proof {
            assert((base + nonempty_list(p@)).drop_last() =~= base);
            assert((base + nonempty_list(p@)).last() == p@);
        }
        if !contains_string(dst, p) {
            let ghost before = dst@;
            dst.push(copy_string(p));
            proof {
                assert(str_views(dst@) =~= str_views(before).push(p@));
            }
        }
    } else {
        proof {
            assert(base + nonempty_list(p@) =~= base);
        }
    }
}

/// Merged entity patterns for the given language codes, in the order given,
/// each list without duplicates (first occurrences kept).
/// Each code resolves as [`resolve`] does.
pub fn get_merged_patterns(registry: &LocaleRegistry, langs: &[&str]) -> (r: MergedPatterns)
    requires
        registry.has_english(),
    ensures
        merged_ok(r, registry.entries@, langs@.map_values(|l: &str| l@)),
{
    let ghost lv = langs@.map_values(|l: &str| l@);
    let ghost es = registry.entries@;
    let mut m = MergedPatterns {
        candidate_patterns: Vec::new(),
        multi_word_patterns: Vec::new(),
        person_verb_patterns: Vec::new(),
        pronoun_patterns: Vec::new(),
        dialogue_patterns: Vec::new(),
        direct_address_patterns: Vec::new(),
        project_verb_patterns: Vec::new(),
        stopwords: Vec::new(),
    };
    proof {
        assert(lv.take(0) =~= Seq::<Seq<char>>::empty());
        assert(str_views(m.candidate_patterns@) =~= Seq::<Seq<char>>::empty());
        assert(str_views(m.multi_word_patterns@) =~= Seq::<Seq<char>>::empty());
        assert(str_views(m.direct_address_patterns@) =~= Seq::<Seq<char>>::empty());
        assert(str_views(m.person_verb_patterns@) =~= Seq::<Seq<char>>::empty());
        assert(str_views(m.pronoun_patterns@) =~= Seq::<Seq<char>>::empty());
        assert(str_views(m.dialogue_patterns@) =~= Seq::<Seq<char>>::empty());
        assert(str_views(m.project_verb_patterns@) =~= Seq::<Seq<char>>::empty());
        assert(str_views(m.stopwords@) =~= Seq::<Seq<char>>::empty());
    }
    let mut k: usize = 0;
    while k < langs.len()
        invariant
            k <= langs@.len(),
            lv == langs@.map_values(|l: &str| l@),
            es == registry.entries@,
            registry.has_english(),
            merged_ok(m, es, lv.take(k as int)),
        decreases langs.len() - k,
    {
        let locale = resolve(registry, langs[k]);
        let e = &locale.entity;
        let ghost t0 = lv.take(k as int);
        let ghost t1 = lv.take(k + 1);
        proof {
            assert(t1.drop_last() =~= t0);
            assert(t1.last() == langs@[k as int]@);
            assert(entity_for(es, t1.last()) == *e);
        }
        push_nonempty(&mut m.candidate_patterns, &e.candidate_pattern, Ghost(gather(es, t0, 0)));
        push_nonempty(&mut m.multi_word_patterns, &e.multi_word_pattern, Ghost(gather(es, t0, 1)));
        push_nonempty(&mut m.direct_address_patterns, &e.direct_address_pattern, Ghost(gather(es, t0, 2)));
        append_unique(&mut m.person_verb_patterns, &e.person_verb_patterns, Ghost(gather(es, t0, 3)));
        append_unique(&mut m.pronoun_patterns, &e.pronoun_patterns, Ghost(gather(es, t0, 4)));
        append_unique(&mut m.dialogue_patterns, &e.dialogue_patterns, Ghost(gather(es, t0, 5)));
        append_unique(&mut m.project_verb_patterns, &e.project_verb_patterns, Ghost(gather(es, t0, 6)));
        append_unique(&mut m.stopwords, &e.stopwords, Ghost(gather(es, t0, 7)));
        k += 1;
    }
    proof {
        assert(lv.take(langs@.len() as int) =~= lv);
    }
    m
}

/// Detect the language of `text` and return the patterns of that one
/// language.
pub fn auto_patterns(registry: &LocaleRegistry, text: &str) -> (r: MergedPatterns)
    requires
        registry.has_english(),
    ensures
        merged_ok(r, registry.entries@, seq![detected_locale(text@)]),
{
    let detected = detect_language_heuristic(text);
    let langs = [detected];
    proof {
        assert(langs@.map_values(|l: &str| l@) =~= seq![detected_locale(text@)]);
    }
    get_merged_patterns(registry, &langs)
}

/// Removing duplicates leaves each element once.
pub proof fn lemma_dedup_distinct(s: Seq<Seq<char>>)
    ensures
        forall|i: int, j: int|
            0 <= i < j < dedup(s).len() ==> #[trigger] dedup(s)[i] != #[trigger] dedup(s)[j],
    decreases s.len(),
{
    if s.len() > 0 {
        let d = dedup(s.drop_last());
        let l = s.last();
        lemma_dedup_distinct(s.drop_last());
        if !d.contains(l) {
            let e = d.push(l);
            assert(dedup(s) == e);
            assert forall|i: int, j: int| 0 <= i < j < e.len() implies #[trigger] e[i] != #[trigger] e[j] by {
                if j == d.len() {
                    if d[i] == l {
                        assert(d.contains(l));
                    }
                } else {
                    assert(d[i] != d[j]);
                }
            }
        }
    }
}

/// Removing duplicates keeps exactly the elements that were there.
pub proof fn lemma_dedup_members(s: Seq<Seq<char>>)
    ensures
        forall|x: Seq<char>| #[trigger] dedup(s).contains(x) <==> s.contains(x),
    decreases s.len(),
{
    if s.len() > 0 {
        let p = s.drop_last();
        let d = dedup(p);
        let l = s.last();
        lemma_dedup_members(p);
        assert forall|x: Seq<char>| #[trigger] dedup(s).contains(x) <==> s.contains(x) by {
            if dedup(s).contains(x) {
                let i = choose|i: int| 0 <= i < dedup(s).len() && dedup(s)[i] == x;
                if i < d.len() {
                    assert(d[i] == x);
                    assert(d.contains(x));
                    let k = choose|k: int| 0 <= k < p.len() && p[k] == x;
                    assert(s[k] == x);
                } else {
                    assert(x == l);
                    assert(s[s.len() - 1] == x);
                }
            }
            if s.contains(x) {
                let i = choose|i: int| 0 <= i < s.len() && s[i] == x;
                if i < s.len() - 1 {
                    assert(p[i] == x);
                    assert(p.contains(x));
                    assert(d.contains(x));
                    let w = choose|w: int| 0 <= w < d.len() && d[w] == x;
                    assert(dedup(s)[w] == x);
                } else if d.contains(l) {
                    let w = choose|w: int| 0 <= w < d.len() && d[w] == l;
                    assert(dedup(s)[w] == x);
                } else {
                    assert(dedup(s)[d.len() as int] == x);
                }
            }
        }
    }
}

/// Removing duplicates changes nothing on a list without repeats.
pub proof fn lemma_dedup_keeps_distinct(s: Seq<Seq<char>>)
    requires
        forall|i: int, j: int| 0 <= i < j < s.len() ==> #[trigger] s[i] != #[trigger] s[j],
    ensures
        dedup(s) == s,
    decreases s.len(),
{
    if s.len() > 0 {
        let p = s.drop_last();
        lemma_dedup_keeps_distinct(p);
        lemma_dedup_members(p);
        if p.contains(s.last()) {
            let i = choose|i: int| 0 <= i < p.len() && p[i] == s.last();
            assert(s[i] == s[s.len() - 1]);
        }
        assert(p.push(s.last()) =~= s);
    }
}

} // verus!
