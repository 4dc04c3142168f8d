//! Context injection: the pieces of memory context shown before a tool
//! runs (pinned slots, project profile, lessons, session summaries and
//! file-related memories), assembled within a fixed character budget.
//!
//! Database reads are cached per category with a time-to-live; lessons and
//! summaries are narrowed to the lines that mention the file a tool is
//! about to touch.
use vstd::prelude::*;
use crate::json::{as_str, decode_json, get, json_as_str, json_decoded, json_get, Json};
use crate::text::{
    chars_of, contains_sub, copy_string, is_ws, join, lex_lt, lines, lowercase, owned, push_str,
    safe_truncate, safe_truncate_spec, seq_contains, str_eq, str_len, str_lt, str_views, string_from_chars,
    to_lowercase, utf8_len, ws_tokens,
};

verus! {

broadcast use vstd::string::group_string_axioms;

/// Character budget for injected context.
pub const INJECT_CHAR_BUDGET: usize = 4000;

/// How long a cached read stays valid, in milliseconds.
pub const CACHE_TTL_MS: u64 = 30000;

/// Max characters per individual block.
pub const MAX_BLOCK_CHARS: usize = 800;

// ---------------------------------------------------------------------------
// Formatting
// ---------------------------------------------------------------------------

pub open spec fn format_section_spec(header: Seq<char>, items: Seq<char>) -> Seq<char> {
    if items.len() == 0 {
        Seq::empty()
    } else {
        "### "@ + header + "\n"@ + items
    }
}

/// A section with a header and its (already bulleted) items; empty when
/// there are no items.
pub fn format_section(header: &str, items: &str) -> (r: String)
    ensures
        r@ == format_section_spec(header@, items@),
{
    if items.is_empty() {
        return String::new();
    }
    let mut r = owned("### ");
    push_str(&mut r, header);
    push_str(&mut r, "\n");
    push_str(&mut r, items);
    r
}

pub open spec fn truncate_block_spec(text: Seq<char>) -> Seq<char> {
    if utf8_len(text) > MAX_BLOCK_CHARS {
        safe_truncate_spec(text, MAX_BLOCK_CHARS as nat) + "..."@
    } else {
        text
    }
}

/// A block cut to `MAX_BLOCK_CHARS` bytes (at a character boundary) with
/// `"..."` appended when it is longer.
pub fn truncate_block(text: &str) -> (r: String)
    ensures
        r@ == truncate_block_spec(text@),
{
    let cs = chars_of(text);
    if crate::text::utf8_longer_than(cs.as_slice(), MAX_BLOCK_CHARS) {
        let mut r = safe_truncate(text, MAX_BLOCK_CHARS);
        push_str(&mut r, "...");
        r
    } else {
        owned(text)
    }
}

/// `'\n'` replaced by a space.
pub open spec fn flatten_newlines(s: Seq<char>) -> Seq<char> {
    s.map_values(|c: char|
        if c == '\n' {
            ' '
        } else {
            c
        })
}

pub fn flatten_newlines_exec(s: &str) -> (r: String)
    ensures
        r@ == flatten_newlines(s@),
{
    let cs = chars_of(s);
    let mut out: Vec<char> = Vec::new();
    let mut i: usize = 0;
    while i < cs.len()
        invariant
            i <= cs@.len(),
            cs@ == s@,
            out@ == flatten_newlines(s@.take(i as int)),
        decreases cs.len() - i,
    {
        let c = cs[i];
        out.push(if c == '\n' { ' ' } else { c });
        proof {
            assert(flatten_newlines(s@.take(i + 1)) =~= flatten_newlines(s@.take(i as int)).push(
                if c == '\n' {
                    ' '
                } else {
                    c
                },
            ));
        }
        i += 1;
    }
    proof {
        assert(s@.take(s@.len() as int) =~= s@);
    }
    string_from_chars(out.as_slice())
}

// ---------------------------------------------------------------------------
// Paths
// ---------------------------------------------------------------------------

pub open spec fn looks_like_path_spec(s: Seq<char>) -> bool {
    s.contains('.') || s.contains('/') || s.contains('\\')
}

/// A string looks like a file path when it has a `.`, `/` or `\`.
pub fn looks_like_path(s: &str) -> (r: bool)
    ensures
        r == looks_like_path_spec(s@),
{
    crate::text::str_contains_char(s, '.') || crate::text::str_contains_char(s, '/')
        || crate::text::str_contains_char(s, '\\')
}

/// `s` without its leading `'/'` characters.
pub open spec fn strip_slashes(s: Seq<char>) -> Seq<char>
    decreases s.len(),
{
    if s.len() > 0 && s[0] == '/' {
        strip_slashes(s.drop_first())
    } else {
        s
    }
}

/// `s` without its leading `"./"` repetitions.
pub open spec fn strip_dot_slashes(s: Seq<char>) -> Seq<char>
    decreases s.len(),
{
    if s.len() >= 2 && s[0] == '.' && s[1] == '/' {
        strip_dot_slashes(s.skip(2))
    } else {
        s
    }
}

/// What a command token contributes as a path.
pub open spec fn command_token_path(t: Seq<char>) -> Option<Seq<char>> {
    if looks_like_path_spec(t) && !(t.len() > 0 && t[0] == '-') {
        let cleaned = strip_dot_slashes(strip_slashes(t));
        if cleaned.contains('/') && utf8_len(cleaned) > 3 {
            Some(cleaned)
        } else {
            None
        }
    } else {
        None
    }
}

/// The paths a list of command tokens contributes, in order.
pub open spec fn command_paths(tokens: Seq<Seq<char>>) -> Seq<Seq<char>>
    decreases tokens.len(),
{
    if tokens.len() == 0 {
        Seq::empty()
    } else {
        let p = command_paths(tokens.drop_last());
        match command_token_path(tokens.last()) {
            Some(c) => p.push(c),
            None => p,
        }
    }
}

fn strip_prefixes(t: &Vec<char>) -> (r: Vec<char>)
    ensures
        r@ == strip_dot_slashes(strip_slashes(t@)),
{
    let mut i: usize = 0;
    proof {
        assert(t@.skip(0) =~= t@);
    }
    while i < t.len() && t[i] == '/'
        invariant
            i <= t@.len(),
            strip_slashes(t@) == strip_slashes(t@.skip(i as int)),
        decreases t.len() - i,
    {
        proof {
            assert(t@.skip(i as int).drop_first() =~= t@.skip(i + 1));
        }
        i += 1;
    }
    proof {
        assert(strip_slashes(t@.skip(i as int)) == t@.skip(i as int));
    }
    let ghost u = t@.skip(i as int);
    let mut j = i;
    proof {
        assert(t@.skip(j as int) =~= u.skip(0));
    }
    while t.len() - j >= 2 && t[j] == '.' && t[j + 1] == '/'
        invariant
            i <= j <= t@.len(),
            u == t@.skip(i as int),
            strip_dot_slashes(u) == strip_dot_slashes(t@.skip(j as int)),
        decreases t.len() - j,
    {
        proof {
            assert(t@.skip(j as int).skip(2) =~= t@.skip(j + 2));
        }
        j += 2;
    }
    proof {
        assert(strip_dot_slashes(t@.skip(j as int)) == t@.skip(j as int));
    }
    let mut r: Vec<char> = Vec::new();
    let mut k = j;
    while k < t.len()
        invariant
            j <= k <= t@.len(),
            r@ == t@.subrange(j as int, k as int),
        decreases t.len() - k,
    {
        r.push(t[k]);
        proof {
            assert(t@.subrange(j as int, k + 1) =~= t@.subrange(j as int, k as int).push(t@[k as int]));
        }
        k += 1;
    }
    proof {
        assert(t@.subrange(j as int, t@.len() as int) =~= t@.skip(j as int));
    }
    r
}

/// Paths mentioned in a shell command: whitespace-separated tokens that
/// look like paths and are not flags, stripped of leading `/` and `./`,
/// kept when they still hold a `/` and are longer than three bytes.
pub fn extract_paths_from_command(cmd: &str) -> (r: Vec<String>)
    ensures
        str_views(r@) == command_paths(ws_tokens(cmd@)),
{
    let cs = chars_of(cmd);
    let tokens = crate::text::split_whitespace(cs.as_slice());
    let ghost toks = ws_tokens(cmd@);
    let mut r: Vec<String> = Vec::new();
    let mut k: usize = 0;
    while k < tokens.len()
        invariant
            k <= tokens@.len(),
            tokens@.len() == toks.len(),
            toks == ws_tokens(cmd@),
            forall|i: int| 0 <= i < tokens@.len() ==> #[trigger] tokens@[i]@ == toks[i],
            str_views(r@) == command_paths(toks.take(k as int)),
        decreases tokens.len() - k,
    {
        let t = &tokens[k];
        let ts = string_from_chars(t.as_slice());
        proof {
            assert(toks.take(k + 1).drop_last() =~= toks.take(k as int));
            assert(toks.take(k + 1).last() == t@);
        }
        let flag = t.len() > 0 && t[0] == '-';
        if looks_like_path(ts.as_str()) && !flag {
            let cleaned = strip_prefixes(t);
            let cs2 = string_from_chars(cleaned.as_slice());
            if crate::text::str_contains_char(cs2.as_str(), '/') && crate::text::utf8_longer_than(
                cleaned.as_slice(),
                3,
            ) {
                let ghost before = r@;
                r.push(cs2);
                proof {
                    assert(str_views(r@) =~= str_views(before).push(cleaned@));
                }
            }
        }
        k += 1;
    }
    proof {
        assert(toks.take(toks.len() as int) =~= toks);
    }
    r
}

// ---------------------------------------------------------------------------
// File names and line filtering
// ---------------------------------------------------------------------------

/// What holds of `stem` as the file stem of `path` on every target: it
/// holds no `/`, and a plain name (non-empty, without `/`, `\`, `.` or
/// `:`) is its own stem.  (Which characters separate components depends on
/// the target, so nothing more is stated.)
pub open spec fn stem_ok(path: Seq<char>, stem: Seq<char>) -> bool {
    &&& !stem.contains('/')
    &&& (path.len() > 0 && !path.contains('/') && !path.contains('\\') && !path.contains('.') && !path.contains(':'))
        ==> stem == path
}

/// `Path::new(path).file_stem()` as UTF-8: the final component's name
/// without its extension (`None` when there is no final component or it is
/// not UTF-8).  Components are split as the target does; of the result
/// only what holds on every target is stated: a stem holds no `/`, and a
/// plain name without `/`, `\`, `.` or `:` is its own stem.
#[verifier::external_body]
fn file_stem_of(path: &str) -> (r: Option<String>)
    ensures
        r is Some ==> !r->0@.contains('/'),
        path@.len() > 0 && !path@.contains('/') && !path@.contains('\\') && !path@.contains('.') && !path@.contains(':')
            ==> r is Some && r->0@ == path@,
{
    std::path::Path::new(path).file_stem().and_then(|s| s.to_str()).map(|s| s.to_string())
}

/// The file name of a path without directory and extension, for fuzzy
/// matching; empty when the path has no file name.
pub fn file_name_stem(path: &str) -> (r: String)
    ensures
        stem_ok(path@, r@),
{
    match file_stem_of(path) {
        Some(s) => s,
        None => {
            let e = String::new();
            proof {
                assert(!e@.contains('/'));
            }
            e
        },
    }
}

/// The lines of `ls` whose lower-cased form contains `needle_lower`.
pub open spec fn matching_lines(ls: Seq<Seq<char>>, needle_lower: Seq<char>) -> Seq<Seq<char>>
    decreases ls.len(),
{
    if ls.len() == 0 {
        Seq::empty()
    } else {
        let p = matching_lines(ls.drop_last(), needle_lower);
        if contains_sub(lowercase(ls.last()), needle_lower) {
            p.push(ls.last())
        } else {
            p
        }
    }
}

/// `all` narrowed to the lines that mention `needle` (ignoring case), each
/// ended by a newline; `all` itself when the needle is empty or no line
/// mentions it.
pub open spec fn filter_for_needle(all: Seq<char>, needle: Seq<char>) -> Seq<char> {
    if needle.len() == 0 || all.len() == 0 {
        all
    } else {
        let f = join(matching_lines(lines(all), lowercase(needle)), "\n"@);
        if f.len() == 0 {
            all
        } else {
            f + "\n"@
        }
    }
}

/// Narrow a block of bulleted lines to those that mention `needle`.
pub fn filter_lines_for_stem(all: &str, needle: &str) -> (r: String)
    ensures
        r@ == filter_for_needle(all@, needle@),
{
    if needle.is_empty() || all.is_empty() {
        return owned(all);
    }
    let needle_lower = to_lowercase(needle);
    let nl = chars_of(needle_lower.as_str());
    let cs = chars_of(all);
    let ls = crate::text::lines_of(cs.as_slice());
    let ghost lv = lines(all@);
    let mut out = String::new();
    let mut count: usize = 0;
    let mut k: usize = 0;
    while k < ls.len()
        invariant
            k <= ls@.len(),
            ls@.len() == lv.len(),
            lv == lines(all@),
            cs@ == all@,
            nl@ == lowercase(needle@),
            forall|i: int| 0 <= i < ls@.len() ==> #[trigger] ls@[i]@ == lv[i],
            count == matching_lines(lv.take(k as int), nl@).len(),
            count <= k,
            out@ == join(matching_lines(lv.take(k as int), nl@), "\n"@),
        decreases ls.len() - k,
    {
        let line = string_from_chars(ls[k].as_slice());
        let lower = to_lowercase(line.as_str());
        let lc = chars_of(lower.as_str());
        proof {
            assert(lv.take(k + 1).drop_last() =~= lv.take(k as int));
            assert(lv.take(k + 1).last() == lv[k as int]);
        }
        if seq_contains(lc.as_slice(), nl.as_slice()) {
            let ghost m = matching_lines(lv.take(k as int), nl@);
            if count > 0 {
                push_str(&mut out, "\n");
            }
            push_str(&mut out, line.as_str());
            proof {
                let m2 = m.push(lv[k as int]);
                assert(m2.drop_last() =~= m);
                if m.len() == 0 {
                    assert(out@ =~= join(m2, "\n"@));
                } else {
                    assert(out@ =~= join(m2, "\n"@));
                }
            }
            count = count + 1;
        }
        k += 1;
    }
    proof {
        assert(lv.take(lv.len() as int) =~= lv);
    }
    if out.as_str().is_empty() {
        owned(all)
    } else {
        push_str(&mut out, "\n");
        out
    }
}

/// Narrow a block of bulleted lines to those that mention the stem of
/// `file`; unfiltered when the file has no stem or nothing matches.
pub fn filter_lines_for_file(all: &str, file: &str) -> (r: String)
    ensures
        exists|stem: Seq<char>| stem_ok(file@, stem) && r@ == filter_for_needle(all@, stem),
{
    let needle = file_name_stem(file);
    filter_lines_for_stem(all, needle.as_str())
}

// ---------------------------------------------------------------------------
// File paths named by tool parameters
// ---------------------------------------------------------------------------

/// One file-naming parameter of a tool call, as far as path extraction
/// reads it.
pub enum ParamField {
    /// The key is absent.
    Missing,
    /// The key holds a string.
    Text(String),
    /// The key holds an object; its `"path"` member when that is a string.
    Object(Option<String>),
    /// The key holds anything else.
    Other,
}

/// The parameters of a tool call that can name files: `path`,
/// `file_path`, `file`, `target` and a `command` string.
pub struct ToolParams {
    pub path: ParamField,
    pub file_path: ParamField,
    pub file: ParamField,
    pub target: ParamField,
    pub command: Option<String>,
}

/// The path a parameter names, if it looks like one.
pub open spec fn field_path(f: ParamField) -> Seq<Seq<char>> {
    match f {
        ParamField::Text(s) => if looks_like_path_spec(s@) {
            seq![s@]
        } else {
            Seq::empty()
        },
        ParamField::Object(Some(p)) => if looks_like_path_spec(p@) {
            seq![p@]
        } else {
            Seq::empty()
        },
        _ => Seq::empty(),
    }
}

/// Every candidate path of a tool call, before sorting: the four keys in
/// order, then the paths of the command.
pub open spec fn candidate_paths(p: ToolParams) -> Seq<Seq<char>> {
    field_path(p.path) + field_path(p.file_path) + field_path(p.file) + field_path(p.target) + match p.command {
        Some(c) => command_paths(ws_tokens(c@)),
        None => Seq::empty(),
    }
}

/// Strictly increasing in string order.
pub open spec fn sorted_strict(s: Seq<Seq<char>>) -> bool {
    forall|i: int, j: int| 0 <= i < j < s.len() ==> lex_lt(#[trigger] s[i], #[trigger] s[j])
}

/// Insert `s` into a strictly sorted list unless it is there.
fn insert_sorted_unique(v: &mut Vec<String>, s: String)
    requires
        sorted_strict(str_views(old(v)@)),
    ensures
        sorted_strict(str_views(final(v)@)),
        forall|x: Seq<char>|
            #[trigger] str_views(final(v)@).contains(x) <==> (str_views(old(v)@).contains(x) || x == s@),
{
    let ghost sv = str_views(v@);
    let mut p: usize = 0;
    while p < v.len() && str_lt(v[p].as_str(), s.as_str())
        invariant
            p <= v@.len(),
            sv == str_views(v@),
            forall|i: int| 0 <= i < p ==> lex_lt(#[trigger] sv[i], s@),
        decreases v.len() - p,
    {
        p += 1;
    }
    if p < v.len() && str_eq(v[p].as_str(), s.as_str()) {
        proof {
            assert(sv[p as int] == s@);
        }
        return;
    }
    proof {
        if p < sv.len() {
            assert(!lex_lt(sv[p as int], s@));
            crate::text::lemma_lex_lt_total(sv[p as int], s@);
            assert(lex_lt(s@, sv[p as int]));
        }
    }
    let ghost sval = s@;
    v.insert(p, s);
    proof {
        let nv = str_views(v@);
        assert(nv =~= sv.insert(p as int, sval));
        assert forall|i: int, j: int| 0 <= i < j < nv.len() implies lex_lt(#[trigger] nv[i], #[trigger] nv[j]) by {
            if j < p {
                assert(lex_lt(sv[i], sv[j]));
            } else if j == p {
                assert(lex_lt(sv[i], sval));
            } else if i > p {
                assert(lex_lt(sv[i - 1], sv[j - 1]));
            } else if i == p {
                if j - 1 > p {
                    assert(lex_lt(sv[p as int], sv[j - 1]));
                    crate::text::lemma_lex_lt_trans(sval, sv[p as int], sv[j - 1]);
                }
            } else {
                assert(lex_lt(sv[i], sv[j - 1]));
            }
        }
        assert forall|x: Seq<char>| #[trigger] nv.contains(x) <==> (sv.contains(x) || x == sval) by {
            if nv.contains(x) {
                let i = choose|i: int| 0 <= i < nv.len() && nv[i] == x;
                if i < p {
                    assert(sv[i] == x);
                } else if i > p {
                    assert(sv[i - 1] == x);
                }
            }
            if sv.contains(x) {
                let i = choose|i: int| 0 <= i < sv.len() && sv[i] == x;
                if i < p {
                    assert(nv[i] == x);
                } else {
                    assert(nv[i + 1] == x);
                }
            }
            if x == sval {
                assert(nv[p as int] == x);
            }
        }
    }
}

/// The file paths a tool call names, sorted, each once: string parameters
/// `path`, `file_path`, `file` and `target` (or the `path` member of an
/// object there) that look like paths, and the paths in `command`.
pub fn collect_file_paths(params: &ToolParams) -> (r: Vec<String>)
    ensures
        sorted_strict(str_views(r@)),
        forall|x: Seq<char>| #[trigger] str_views(r@).contains(x) <==> candidate_paths(*params).contains(x),
{
    let mut cands: Vec<String> = Vec::new();
    let fields = [&params.path, &params.file_path, &params.file, &params.target];
    let mut f: usize = 0;
    while f < 4
        invariant
            f <= 4,
            fields@ == seq![&params.path, &params.file_path, &params.file, &params.target],
            str_views(cands@) == if f == 0 {
                Seq::<Seq<char>>::empty()
            } else if f == 1 {
                field_path(params.path)
            } else if f == 2 {
                field_path(params.path) + field_path(params.file_path)
            } else if f == 3 {
                field_path(params.path) + field_path(params.file_path) + field_path(params.file)
            } else {
                field_path(params.path) + field_path(params.file_path) + field_path(params.file)
                    + field_path(params.target)
            },
        decreases 4 - f,
    {
        let ghost before = str_views(cands@);
        match fields[f] {
            ParamField::Text(s) => {
                if looks_like_path(s.as_str()) {
                    cands.push(copy_string(s));
                }
            },
            ParamField::Object(Some(p)) => {
                if looks_like_path(p.as_str()) {
                    cands.push(copy_string(p));
                }
            },
            _ => {},
        }
        proof {
            assert(str_views(cands@) =~= before + field_path(*fields@[f as int]));
        }
        f += 1;
    }
    let ghost fixed = str_views(cands@);
    match &params.command {
        Some(c) => {
            let extra = extract_paths_from_command(c.as_str());
            let mut k: usize = 0;
            while k < extra.len()
                invariant
                    k <= extra@.len(),
                    str_views(cands@) == fixed + str_views(extra@).take(k as int),
                decreases extra.len() - k,
            {
                let ghost b = str_views(cands@);
                cands.push(copy_string(&extra[k]));
                proof {
                    assert(str_views(cands@) =~= b.push(extra@[k as int]@));
                    assert(str_views(extra@).take(k + 1) =~= str_views(extra@).take(k as int).push(
                        extra@[k as int]@,
                    ));
                    assert(str_views(cands@) =~= fixed + str_views(extra@).take(k + 1));
                }
                k += 1;
            }
            proof {
                assert(str_views(extra@).take(extra@.len() as int) =~= str_views(extra@));
            }
        },
        None => {
            proof {
                assert(str_views(cands@) =~= fixed + Seq::<Seq<char>>::empty());
            }
        },
    }
    let ghost all = str_views(cands@);
    let mut r: Vec<String> = Vec::new();
    let mut k: usize = 0;
    while k < cands.len()
        invariant
            k <= cands@.len(),
            all == str_views(cands@),
            sorted_strict(str_views(r@)),
            forall|x: Seq<char>| #[trigger] str_views(r@).contains(x) <==> all.take(k as int).contains(x),
        decreases cands.len() - k,
    {
        insert_sorted_unique(&mut r, copy_string(&cands[k]));
        proof {
            let t1 = all.take(k + 1);
            let t0 = all.take(k as int);
            assert forall|x: Seq<char>| #[trigger] t1.contains(x) <==> (t0.contains(x) || x == all[k as int]) by {
                if t1.contains(x) {
                    let i = choose|i: int| 0 <= i < t1.len() && t1[i] == x;
                    if i < k {
                        assert(t0[i] == x);
                    }
                }
                if t0.contains(x) {
                    let i = choose|i: int| 0 <= i < t0.len() && t0[i] == x;
                    assert(t1[i] == x);
                }
                if x == all[k as int] {
                    assert(t1[k as int] == x);
                }
            }
        }
        k += 1;
    }
    proof {
        assert(all.take(all.len() as int) =~= all);
    }
    r
}

/// `f` is what a parameter holding `v` reads as: missing, a string, an
/// object (with the string of its `path` member, if any), or anything else.
pub open spec fn field_read(f: ParamField, v: Option<Json>) -> bool {
    match v {
        None => f is Missing,
        Some(Json::Str(s)) => f matches ParamField::Text(t) && t@ == s@,
        Some(Json::Object(ms)) => f matches ParamField::Object(o) && match o {
            Some(p) => as_str(get(Json::Object(ms), "path"@)) == Some(p@),
            None => as_str(get(Json::Object(ms), "path"@)) is None,
        },
        Some(_) => f is Other,
    }
}

/// `p` holds what the decoded tool-call parameters `j` give for `path`,
/// `file_path`, `file`, `target` and the `command` string.
pub open spec fn params_read(p: ToolParams, j: Json) -> bool {
    &&& field_read(p.path, get(j, "path"@))
    &&& field_read(p.file_path, get(j, "file_path"@))
    &&& field_read(p.file, get(j, "file"@))
    &&& field_read(p.target, get(j, "target"@))
    &&& match p.command {
        Some(c) => as_str(get(j, "command"@)) == Some(c@),
        None => as_str(get(j, "command"@)) is None,
    }
}

fn read_field(j: &Json, key: &str) -> (f: ParamField)
    ensures
        field_read(f, get(*j, key@)),
{
    match json_get(j, key) {
        None => ParamField::Missing,
        Some(v) => match v {
            Json::Str(s) => ParamField::Text(copy_string(s)),
            Json::Object(_) => match json_as_str(json_get(v, "path")) {
                Some(p) => ParamField::Object(Some(owned(p))),
                None => ParamField::Object(None),
            },
            _ => ParamField::Other,
        },
    }
}

/// The file-naming parameters of a decoded tool call; `None` unless the
/// value is an object.
pub fn tool_params_of(j: &Json) -> (r: Option<ToolParams>)
    ensures
        r is Some <==> j is Object,
        r matches Some(p) ==> params_read(p, *j),
{
    match j {
        Json::Object(_) => {
            let command = match json_as_str(json_get(j, "command")) {
                Some(c) => Some(owned(c)),
                None => None,
            };
            Some(
                ToolParams {
                    path: read_field(j, "path"),
                    file_path: read_field(j, "file_path"),
                    file: read_field(j, "file"),
                    target: read_field(j, "target"),
                    command,
                },
            )
        },
        _ => None,
    }
}

/// `fs` are the file paths named by a tool call's parameters given as
/// JSON text: sorted, each once, the candidate paths of the decoded
/// parameters; none when the text does not decode to an object.
pub open spec fn file_paths_of(params_json: Seq<char>, fs: Seq<Seq<char>>) -> bool {
    &&& sorted_strict(fs)
    &&& match json_decoded(params_json) {
        Some(j) => if j is Object {
            exists|p: ToolParams| #[trigger] params_read(p, j)
                && forall|x: Seq<char>| #[trigger] fs.contains(x) <==> candidate_paths(p).contains(x)
        } else {
            fs.len() == 0
        },
        None => fs.len() == 0,
    }
}

/// The file paths named by a tool call's parameters given as JSON text,
/// sorted, each once; none when the text does not decode to an object.
pub fn extract_file_paths(params_json: &str) -> (r: Vec<String>)
    ensures
        file_paths_of(params_json@, str_views(r@)),
{
    match decode_json(params_json) {
        Some(j) => match tool_params_of(&j) {
            Some(p) => collect_file_paths(&p),
            None => {
                let v: Vec<String> = Vec::new();
                proof {
                    assert(str_views(v@) =~= Seq::<Seq<char>>::empty());
                }
                v
            },
        },
        None => {
            let v: Vec<String> = Vec::new();
            proof {
                assert(str_views(v@) =~= Seq::<Seq<char>>::empty());
            }
            v
        },
    }
}


// ---------------------------------------------------------------------------
// Cache of database reads
// ---------------------------------------------------------------------------

/// The categories of cached reads.
#[derive(Clone, Copy, PartialEq, Eq, Structural)]
pub enum CacheSlot {
    PinnedSlots,
    ProjectProfile,
    Lessons,
    SessionSummaries,
}

/// A cached read and when it was made (milliseconds on a monotonic clock).
pub struct CacheEntry {
    pub value: String,
    pub cached_at_ms: u64,
}

impl CacheEntry {
    /// More than the time-to-live has passed since the read; a clock that
    /// reads earlier than the entry counts as no time passed.
    pub fn is_expired(&self, now_ms: u64) -> (r: bool)
        ensures
            r == !entry_fresh(*self, now_ms),
    {
        now_ms > self.cached_at_ms && now_ms - self.cached_at_ms > CACHE_TTL_MS
    }
}

pub open spec fn entry_fresh(e: CacheEntry, now_ms: u64) -> bool {
    !(now_ms > e.cached_at_ms && now_ms - e.cached_at_ms > CACHE_TTL_MS)
}

/// Debounced reads: each category is cached on its own.
pub struct ContextCache {
    pub pinned_slots: Option<CacheEntry>,
    pub project_profile: Option<CacheEntry>,
    pub lessons: Option<CacheEntry>,
    pub session_summaries: Option<CacheEntry>,
}

pub open spec fn slot_of(c: ContextCache, slot: CacheSlot) -> Option<CacheEntry> {
    match slot {
        CacheSlot::PinnedSlots => c.pinned_slots,
        CacheSlot::ProjectProfile => c.project_profile,
        CacheSlot::Lessons => c.lessons,
        CacheSlot::SessionSummaries => c.session_summaries,
    }
}

/// The value a slot still holds at `now_ms`, if any.
pub open spec fn cached_value(c: ContextCache, slot: CacheSlot, now_ms: u64) -> Option<Seq<char>> {
    match slot_of(c, slot) {
        Some(e) => if entry_fresh(e, now_ms) {
            Some(e.value@)
        } else {
            None
        },
        None => None,
    }
}

impl ContextCache {
    /// An empty cache.
    pub fn new() -> (r: Self)
        ensures
            forall|s: CacheSlot| slot_of(r, s) is None,
    {
        ContextCache { pinned_slots: None, project_profile: None, lessons: None, session_summaries: None }
    }

    /// The value still cached for `slot`, if any.
    pub fn lookup(&self, slot: CacheSlot, now_ms: u64) -> (r: Option<String>)
        ensures
            match r {
                Some(v) => cached_value(*self, slot, now_ms) == Some(v@),
                None => cached_value(*self, slot, now_ms) is None,
            },
    {
        let cur = match slot {
            CacheSlot::PinnedSlots => &self.pinned_slots,
            CacheSlot::ProjectProfile => &self.project_profile,
            CacheSlot::Lessons => &self.lessons,
            CacheSlot::SessionSummaries => &self.session_summaries,
        };
        match cur {
            Some(e) => if e.is_expired(now_ms) {
                None
            } else {
                Some(copy_string(&e.value))
            },
            None => None,
        }
    }

    /// Record a fresh read of `slot`.
    pub fn store(&mut self, slot: CacheSlot, value: &String, now_ms: u64)
        ensures
            slot_of(*final(self), slot) matches Some(e) && e.value@ == value@ && e.cached_at_ms == now_ms,
            forall|s: CacheSlot| s != slot ==> slot_of(*final(self), s) == slot_of(*old(self), s),
    {
        let e = CacheEntry { value: copy_string(value), cached_at_ms: now_ms };
        match slot {
            CacheSlot::PinnedSlots => self.pinned_slots = Some(e),
            CacheSlot::ProjectProfile => self.project_profile = Some(e),
            CacheSlot::Lessons => self.lessons = Some(e),
            CacheSlot::SessionSummaries => self.session_summaries = Some(e),
        }
    }

    /// The cached value of `slot` while it is fresh; otherwise the value
    /// `compute` gives, which is then cached.
    pub fn get_or_compute<F: FnOnce() -> String>(&mut self, slot: CacheSlot, now_ms: u64, compute: F) -> (r: String)
        requires
            call_requires(compute, ()),
        ensures
            match cached_value(*old(self), slot, now_ms) {
                Some(v) => r@ == v && *final(self) == *old(self),
                None => {
                    &&& call_ensures(compute, (), r)
                    &&& cached_value(*final(self), slot, now_ms) == Some(r@)
                    &&& slot_of(*final(self), slot) matches Some(e) && e.cached_at_ms == now_ms
                    &&& forall|s: CacheSlot| s != slot ==> slot_of(*final(self), s) == slot_of(*old(self), s)
                },
            },
    {
        match self.lookup(slot, now_ms) {
            Some(v) => v,
            None => {
                let v = compute();
                self.store(slot, &v, now_ms);
                v
            },
        }
    }

    /// Forget every cached read.
    pub fn invalidate(&mut self)
        ensures
            forall|s: CacheSlot| slot_of(*final(self), s) is None,
    {
        self.pinned_slots = None;
        self.project_profile = None;
        self.lessons = None;
        self.session_summaries = None;
    }
}

/// A read cached at `t` is served unchanged at any time up to `t` plus the
/// time-to-live.
pub proof fn lemma_cached_until_ttl(c: ContextCache, slot: CacheSlot, now_ms: u64)
    requires
        slot_of(c, slot) is Some,
        slot_of(c, slot)->0.cached_at_ms <= now_ms <= slot_of(c, slot)->0.cached_at_ms + CACHE_TTL_MS,
    ensures
        cached_value(c, slot, now_ms) == Some(slot_of(c, slot)->0.value@),
{
}

// ---------------------------------------------------------------------------
// Assembling the context
// ---------------------------------------------------------------------------

/// `out` with a section added when the section has items and fits in the
/// remaining budget.
pub open spec fn add_section_spec(out: Seq<char>, header: Seq<char>, items: Seq<char>) -> Seq<char> {
    let b = format_section_spec(header, items);
    if items.len() > 0 && utf8_len(out) + utf8_len(b) <= INJECT_CHAR_BUDGET {
        out + b
    } else {
        out
    }
}

/// The sections in priority order: pinned slots, project profile, lessons,
/// recent sessions.
pub open spec fn assemble_spec(pinned: Seq<char>, profile: Seq<char>, lessons: Seq<char>, summaries: Seq<char>) -> Seq<char> {
    add_section_spec(
        add_section_spec(
            add_section_spec(add_section_spec(Seq::empty(), "Pinned Slots"@, pinned), "Project Profile"@, profile),
            "Lessons"@,
            lessons,
        ),
        "Recent Sessions"@,
        summaries,
    )
}

fn add_section(out: &mut String, header: &str, items: &str)
    requires
        utf8_len(old(out)@) <= INJECT_CHAR_BUDGET,
    ensures
        final(out)@ == add_section_spec(old(out)@, header@, items@),
        utf8_len(final(out)@) <= INJECT_CHAR_BUDGET,
{
    if items.is_empty() {
        return;
    }
    let block = format_section(header, items);
    let used = str_len(out.as_str());
    let bc = chars_of(block.as_str());
    if !crate::text::utf8_longer_than(bc.as_slice(), INJECT_CHAR_BUDGET - used) {
        let ghost before = out@;
        push_str(out, block.as_str());
        proof {
            crate::text::lemma_utf8_len_concat(before, block@);
        }
    }
}

/// The sections of the context within the budget, highest priority first;
/// a section that does not fit is left out and later ones still tried.
pub fn assemble_sections(pinned: &str, profile: &str, lessons: &str, summaries: &str) -> (r: String)
    ensures
        r@ == assemble_spec(pinned@, profile@, lessons@, summaries@),
        utf8_len(r@) <= INJECT_CHAR_BUDGET,
{
    let mut out = String::new();
    add_section(&mut out, "Pinned Slots", pinned);
    add_section(&mut out, "Project Profile", profile);
    add_section(&mut out, "Lessons", lessons);
    add_section(&mut out, "Recent Sessions", summaries);
    out
}

/// Budget left for file-related context after the sections, when it is
/// worth using (more than a hundred bytes).
pub fn file_context_budget(sections: &str) -> (r: Option<usize>)
    requires
        utf8_len(sections@) <= INJECT_CHAR_BUDGET,
    ensures
        r == (if INJECT_CHAR_BUDGET - utf8_len(sections@) > 100 {
            Some((INJECT_CHAR_BUDGET - utf8_len(sections@)) as usize)
        } else {
            None
        }),
{
    let used = str_len(sections);
    let remaining = INJECT_CHAR_BUDGET - used;
    if remaining > 100 {
        Some(remaining)
    } else {
        None
    }
}

pub open spec fn finish_spec(sections: Seq<char>, file_ctx: Seq<char>) -> Seq<char> {
    if (sections + file_ctx).len() == 0 {
        Seq::empty()
    } else {
        "## MemPalace Context\n"@ + sections + file_ctx
    }
}

/// The injected context: a heading over the sections and file context, or
/// nothing when both are empty.
pub fn finish_context(sections: &str, file_ctx: &str) -> (r: String)
    ensures
        r@ == finish_spec(sections@, file_ctx@),
{
    if sections.is_empty() && file_ctx.is_empty() {
        return String::new();
    }
    let mut r = owned("## MemPalace Context\n");
    push_str(&mut r, sections);
    push_str(&mut r, file_ctx);
    r
}

/// One bullet per non-empty preview.
pub open spec fn related_bullets(texts: Seq<Seq<char>>) -> Seq<char>
    decreases texts.len(),
{
    if texts.len() == 0 {
        Seq::empty()
    } else {
        let p = truncate_block_spec(texts.last());
        related_bullets(texts.drop_last()) + if p.len() > 0 {
            "- "@ + flatten_newlines(p) + "\n"@
        } else {
            Seq::empty()
        }
    }
}

pub open spec fn first_three(texts: Seq<Seq<char>>) -> Seq<Seq<char>> {
    if texts.len() > 3 {
        texts.take(3)
    } else {
        texts
    }
}

pub open spec fn related_body(stem: Seq<char>, texts: Seq<Seq<char>>) -> Seq<char> {
    "\n### Related: `"@ + stem + "`\n"@ + related_bullets(first_three(texts))
}

/// Cutting `s` at `n` bytes falls on a character boundary.
pub open spec fn char_boundary(s: Seq<char>, n: nat) -> bool {
    exists|k: int| 0 <= k <= s.len() && #[trigger] utf8_len(s.take(k)) == n
}

pub open spec fn file_context_spec(stem: Seq<char>, texts: Seq<Seq<char>>, budget: nat) -> Seq<char> {
    if texts.len() == 0 {
        Seq::empty()
    } else {
        let b = related_body(stem, texts);
        if utf8_len(b) > budget {
            safe_truncate_spec(b, budget) + "..."@
        } else {
            b
        }
    }
}

/// Related memories for a file: a heading naming the file's stem and a
/// bullet for each of the first three results, cut to `budget` bytes
/// (with `"..."` appended) when longer; nothing when there are no results.
pub fn format_file_context(stem: &str, texts: &Vec<String>, budget: usize) -> (r: String)
    ensures
        r@ == file_context_spec(stem@, str_views(texts@), budget as nat),
{
    if texts.len() == 0 {
        return String::new();
    }
    let ghost tv = str_views(texts@);
    let n = if texts.len() > 3 {
        3
    } else {
        texts.len()
    };
    let mut out = owned("\n### Related: `");
    push_str(&mut out, stem);
    push_str(&mut out, "`\n");
    let ghost head = out@;
    let mut k: usize = 0;
    while k < n
        invariant
            k <= n <= texts@.len(),
            n == first_three(tv).len(),
            tv == str_views(texts@),
            out@ == head + related_bullets(tv.take(k as int)),
        decreases n - k,
    {
        let preview = truncate_block(texts[k].as_str());
        proof {
            assert(tv.take(k + 1).drop_last() =~= tv.take(k as int));
            assert(tv.take(k + 1).last() == texts@[k as int]@);
        }
        let ghost before = out@;
        if !preview.as_str().is_empty() {
            let flat = flatten_newlines_exec(preview.as_str());
            push_str(&mut out, "- ");
            push_str(&mut out, flat.as_str());
            push_str(&mut out, "\n");
        }
        proof {
            assert(out@ =~= head + related_bullets(tv.take(k + 1)));
        }
        k += 1;
    }
    proof {
        assert(tv.take(n as int) =~= first_three(tv));
        assert(out@ =~= related_body(stem@, tv));
    }
    let oc = chars_of(out.as_str());
    if crate::text::utf8_longer_than(oc.as_slice(), budget) {
        let mut cut = safe_truncate(out.as_str(), budget);
        push_str(&mut cut, "...");
        cut
    } else {
        out
    }
}

pub open spec fn markdown_bullets(texts: Seq<Seq<char>>) -> Seq<char>
    decreases texts.len(),
{
    if texts.len() == 0 {
        Seq::empty()
    } else {
        let t = texts.last();
        let preview = if utf8_len(t) > 200 {
            safe_truncate_spec(t, 200) + "..."@
        } else {
            t
        };
        markdown_bullets(texts.drop_last()) + "- "@ + flatten_newlines(preview) + "\n"@
    }
}

/// Search results as a markdown block: a heading and one bullet per
/// result, each cut to 200 bytes; nothing when there are no results.
pub fn format_context_as_markdown(texts: &Vec<String>) -> (r: String)
    ensures
        r@ == if texts@.len() == 0 {
            Seq::<char>::empty()
        } else {
            "## Recent Context\n"@ + markdown_bullets(str_views(texts@))
        },
{
    if texts.len() == 0 {
        return String::new();
    }
    let ghost tv = str_views(texts@);
    let mut out = owned("## Recent Context\n");
    let mut k: usize = 0;
    while k < texts.len()
        invariant
            k <= texts@.len(),
            tv == str_views(texts@),
            out@ == "## Recent Context\n"@ + markdown_bullets(tv.take(k as int)),
        decreases texts.len() - k,
    {
        let t = &texts[k];
        let tc = chars_of(t.as_str());
        let preview = if crate::text::utf8_longer_than(tc.as_slice(), 200) {
            let mut p = safe_truncate(t.as_str(), 200);
            push_str(&mut p, "...");
            p
        } else {
            copy_string(t)
        };
        let flat = flatten_newlines_exec(preview.as_str());
        proof {
            assert(tv.take(k + 1).drop_last() =~= tv.take(k as int));
            assert(tv.take(k + 1).last() == t@);
        }
        push_str(&mut out, "- ");
        push_str(&mut out, flat.as_str());
        push_str(&mut out, "\n");
        proof {
            assert(out@ =~= "## Recent Context\n"@ + markdown_bullets(tv.take(k + 1)));
        }
        k += 1;
    }
    proof {
        assert(tv.take(tv.len() as int) =~= tv);
    }
    out
}

// ---------------------------------------------------------------------------
// The injector
// ---------------------------------------------------------------------------

/// Builds the context shown before a tool runs.  Reads of the memory
/// store are supplied by the caller and cached here.
pub struct ContextInjector {
    /// Injection enabled by configuration (the environment can enable it
    /// too).
    pub inject_enabled: bool,
    pub cache: ContextCache,
}

/// `v` is what a read of `slot` gives: the fresh cached value, or else a
/// value the store read may return.
pub open spec fn read_ok<F: Fn(CacheSlot) -> String>(c: ContextCache, slot: CacheSlot, now_ms: u64, fetch: F, v: Seq<char>) -> bool {
    match cached_value(c, slot, now_ms) {
        Some(cv) => v == cv,
        None => exists|r: String| call_ensures(fetch, (slot,), r) && r@ == v,
    }
}

/// Lessons or summaries narrowed to the stem of the first file a tool
/// touches.
pub open spec fn narrow_to_file(files: Seq<Seq<char>>, stem: Seq<char>, all: Seq<char>) -> Seq<char> {
    if files.len() > 0 {
        filter_for_needle(all, stem)
    } else {
        all
    }
}

/// The search query for memories about a file.
pub open spec fn file_query(stem: Seq<char>) -> Seq<char> {
    "file "@ + stem
}

/// `fc` is the file context for the first file: nothing without a file, a
/// stem, or more than a hundred bytes of budget left; otherwise the
/// formatted results of a search about the file (nothing when the search
/// failed), cut to the budget.
pub open spec fn file_context_ok<G: FnOnce(String) -> Option<Vec<String>>>(
    fv: Seq<Seq<char>>,
    stem: Seq<char>,
    sections: Seq<char>,
    search: G,
    fc: Seq<char>,
) -> bool {
    let budget = INJECT_CHAR_BUDGET - utf8_len(sections);
    if fv.len() > 0 && budget > 100 && stem.len() > 0 {
        exists|q: String, res: Option<Vec<String>>|
            q@ == file_query(stem) && #[trigger] call_ensures(search, (q,), res) && fc == match res {
                Some(t) => file_context_spec(stem, str_views(t@), budget as nat),
                None => Seq::<char>::empty(),
            }
    } else {
        fc == Seq::<char>::empty()
    }
}

/// `r` is the context built from the reads `p`, `pr`, `l`, `su` (pinned
/// slots, profile, lessons, summaries), the first file's stem and the file
/// context `fc`.
pub open spec fn context_ok<F: Fn(CacheSlot) -> String, G: FnOnce(String) -> Option<Vec<String>>>(
    c: ContextCache,
    now_ms: u64,
    fv: Seq<Seq<char>>,
    fetch: F,
    search: G,
    stem: Seq<char>,
    p: Seq<char>,
    pr: Seq<char>,
    l: Seq<char>,
    su: Seq<char>,
    fc: Seq<char>,
    r: Seq<char>,
) -> bool {
    let sections = assemble_spec(p, pr, narrow_to_file(fv, stem, l), narrow_to_file(fv, stem, su));
    &&& fv.len() > 0 ==> stem_ok(fv[0], stem)
    &&& read_ok(c, CacheSlot::PinnedSlots, now_ms, fetch, p)
    &&& read_ok(c, CacheSlot::ProjectProfile, now_ms, fetch, pr)
    &&& read_ok(c, CacheSlot::Lessons, now_ms, fetch, l)
    &&& read_ok(c, CacheSlot::SessionSummaries, now_ms, fetch, su)
    &&& file_context_ok(fv, stem, sections, search, fc)
    &&& r == finish_spec(sections, fc)
}

/// After a read of `slot` that gave `v`: a fresh cached value is left as
/// it was; otherwise the slot holds `v`, read at `now_ms`.
pub open spec fn slot_after_read(old_c: ContextCache, new_c: ContextCache, slot: CacheSlot, now_ms: u64, v: Seq<char>) -> bool {
    match cached_value(old_c, slot, now_ms) {
        Some(_) => slot_of(new_c, slot) == slot_of(old_c, slot),
        None => slot_of(new_c, slot) matches Some(e) && e.value@ == v && e.cached_at_ms == now_ms,
    }
}

/// The cache after the four reads of a context build that gave `p`, `pr`,
/// `l` and `su`.
pub open spec fn cache_after_reads(
    old_c: ContextCache,
    new_c: ContextCache,
    now_ms: u64,
    p: Seq<char>,
    pr: Seq<char>,
    l: Seq<char>,
    su: Seq<char>,
) -> bool {
    &&& slot_after_read(old_c, new_c, CacheSlot::PinnedSlots, now_ms, p)
    &&& slot_after_read(old_c, new_c, CacheSlot::ProjectProfile, now_ms, pr)
    &&& slot_after_read(old_c, new_c, CacheSlot::Lessons, now_ms, l)
    &&& slot_after_read(old_c, new_c, CacheSlot::SessionSummaries, now_ms, su)
}

pub open spec fn context_header() -> Seq<char> {
    "## MemPalace Context\n"@
}

proof fn lemma_file_context_len(stem: Seq<char>, texts: Seq<Seq<char>>, budget: nat)
    ensures
        utf8_len(file_context_spec(stem, texts, budget)) <= budget + 3,
{
    if texts.len() > 0 {
        let b = related_body(stem, texts);
        if utf8_len(b) > budget {
            crate::text::lemma_prefix_within_bounds(b, budget);
            crate::text::lemma_utf8_len_concat(crate::text::safe_truncate_spec(b, budget), "..."@);
            reveal_strlit("...");
            assert(utf8_len("..."@) == 3) by {
                reveal_with_fuel(utf8_len, 4);
            }
        }
    }
}

impl ContextInjector {
    /// A new injector with an empty cache.
    pub fn new(inject_enabled: bool) -> (r: Self)
        ensures
            r.inject_enabled == inject_enabled,
            forall|s: CacheSlot| slot_of(r.cache, s) is None,
    {
        ContextInjector { inject_enabled, cache: ContextCache::new() }
    }

    /// Drop all cached reads (after a write).
    pub fn invalidate(&mut self)
        ensures
            final(self).inject_enabled == old(self).inject_enabled,
            forall|s: CacheSlot| slot_of(final(self).cache, s) is None,
    {
        self.cache.invalidate();
    }

    fn cached_read<F: Fn(CacheSlot) -> String>(&mut self, slot: CacheSlot, now_ms: u64, fetch: &F) -> (r: String)
        requires
            call_requires(*fetch, (slot,)),
        ensures
            read_ok(old(self).cache, slot, now_ms, *fetch, r@),
            slot_after_read(old(self).cache, final(self).cache, slot, now_ms, r@),
            final(self).inject_enabled == old(self).inject_enabled,
            forall|s: CacheSlot|
                s != slot ==> #[trigger] slot_of(final(self).cache, s) == slot_of(old(self).cache, s),
    {
        match self.cache.lookup(slot, now_ms) {
            Some(v) => v,
            None => {
                let v = fetch(slot);
                self.cache.store(slot, &v, now_ms);
                v
            },
        }
    }

    /// Build the context for a tool call whose parameters are the JSON text
    /// `tool_params`.  Nothing, and no read, when injection is off (neither
    /// `env_enabled` nor the configuration) or in an SDK child context.
    /// Otherwise, with `files` the paths the parameters name (sorted):
    /// pinned slots, project profile, lessons and
    /// recent sessions (the last two narrowed to the first file's stem)
    /// within the budget, then, when a file is named and more than a
    /// hundred bytes are left, the memories `search` finds for the file
    /// (up to three), cut to the bytes left.
    pub fn build_context<F: Fn(CacheSlot) -> String, G: FnOnce(String) -> Option<Vec<String>>>(
        &mut self,
        now_ms: u64,
        env_enabled: bool,
        sdk_child: bool,
        tool_params: &str,
        fetch: F,
        search: G,
    ) -> (r: String)
        requires
            forall|s: CacheSlot| call_requires(fetch, (s,)),
            forall|q: String| call_requires(search, (q,)),
        ensures
            !(env_enabled || old(self).inject_enabled) || sdk_child ==> r@ == Seq::<char>::empty() && *final(self)
                == *old(self),
            (env_enabled || old(self).inject_enabled) && !sdk_child ==> exists|
                files: Seq<Seq<char>>,
                stem: Seq<char>,
                p: Seq<char>,
                pr: Seq<char>,
                l: Seq<char>,
                su: Seq<char>,
                fc: Seq<char>,
            |
                file_paths_of(tool_params@, files) && #[trigger] context_ok(
                    old(self).cache,
                    now_ms,
                    files,
                    fetch,
                    search,
                    stem,
                    p,
                    pr,
                    l,
                    su,
                    fc,
                    r@,
                ) && cache_after_reads(old(self).cache, final(self).cache, now_ms, p, pr, l, su),
            final(self).inject_enabled == old(self).inject_enabled,
            utf8_len(r@) <= utf8_len(context_header()) + INJECT_CHAR_BUDGET + 3,
    {
        if !(env_enabled || self.inject_enabled) || sdk_child {
            let e = String::new();
            proof {
                assert(utf8_len(e@) == 0);
            }
            return e;
        }
        let files = extract_file_paths(tool_params);
        let ghost c = self.cache;
        let ghost fv = str_views(files@);
        let pinned = self.cached_read(CacheSlot::PinnedSlots, now_ms, &fetch);
        let ghost c1 = self.cache;
        let profile = self.cached_read(CacheSlot::ProjectProfile, now_ms, &fetch);
        let ghost c2 = self.cache;
        let all_lessons = self.cached_read(CacheSlot::Lessons, now_ms, &fetch);
        let ghost c3 = self.cache;
        let all_summaries = self.cached_read(CacheSlot::SessionSummaries, now_ms, &fetch);
        proof {
            assert(cached_value(c1, CacheSlot::ProjectProfile, now_ms) == cached_value(c, CacheSlot::ProjectProfile, now_ms));
            assert(cached_value(c2, CacheSlot::Lessons, now_ms) == cached_value(c, CacheSlot::Lessons, now_ms));
            assert(cached_value(c3, CacheSlot::SessionSummaries, now_ms) == cached_value(c, CacheSlot::SessionSummaries, now_ms));
        }
        let stem = if files.len() > 0 {
            file_name_stem(files[0].as_str())
        } else {
            String::new()
        };
        let (lessons, summaries) = if files.len() > 0 {
            (
                filter_lines_for_stem(all_lessons.as_str(), stem.as_str()),
                filter_lines_for_stem(all_summaries.as_str(), stem.as_str()),
            )
        } else {
            (all_lessons, all_summaries)
        };
        let sections = assemble_sections(pinned.as_str(), profile.as_str(), lessons.as_str(), summaries.as_str());
        let fc = if files.len() > 0 && !stem.as_str().is_empty() {
            match file_context_budget(sections.as_str()) {
                Some(b) => {
                    let mut q = owned("file ");
                    push_str(&mut q, stem.as_str());
                    let ghost qv = q@;
                    match search(q) {
                        Some(texts) => {
                            let out = format_file_context(stem.as_str(), &texts, b);
                            proof {
                                lemma_file_context_len(stem@, str_views(texts@), b as nat);
                            }
                            out
                        },
                        None => String::new(),
                    }
                },
                None => String::new(),
            }
        } else {
            String::new()
        };
        let r = finish_context(sections.as_str(), fc.as_str());
        proof {
            assert(read_ok(c, CacheSlot::PinnedSlots, now_ms, fetch, pinned@));
            assert(read_ok(c, CacheSlot::ProjectProfile, now_ms, fetch, profile@));
            assert(read_ok(c, CacheSlot::Lessons, now_ms, fetch, all_lessons@));
            assert(read_ok(c, CacheSlot::SessionSummaries, now_ms, fetch, all_summaries@));
            assert(file_context_ok(fv, stem@, sections@, search, fc@));
            assert(context_ok(c, now_ms, fv, fetch, search, stem@, pinned@, profile@, all_lessons@, all_summaries@, fc@, r@));
            assert(cache_after_reads(c, self.cache, now_ms, pinned@, profile@, all_lessons@, all_summaries@));
            assert(utf8_len(fc@) <= INJECT_CHAR_BUDGET - utf8_len(sections@) + 3);
            if (sections@ + fc@).len() > 0 {
                crate::text::lemma_utf8_len_concat(sections@, fc@);
                crate::text::lemma_utf8_len_concat(context_header(), sections@ + fc@);
                assert(r@ =~= context_header() + (sections@ + fc@));
            } else {
                assert(r@ =~= Seq::<char>::empty());
            }
        }
        r
    }
}

} // verus!
