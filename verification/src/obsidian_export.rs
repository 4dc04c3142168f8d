//! Obsidian export: memories, observations, lessons, crystals and sessions
//! rendered as Obsidian-compatible markdown with YAML frontmatter, inline
//! `#tags` and `[[wikilinks]]`.
use vstd::prelude::*;
use std::fmt::Write;
use crate::types::{CompressedObservation, Crystal, Lesson, Memory, Session, type_display_name};
use crate::context_inject::{flatten_newlines, flatten_newlines_exec};
use crate::text::{
    ascii_lower, chars_of, copy_string, decimal, decimal_string, is_unicode_alnum, join, lines,
    lowercase, owned, push_str, split_on, str_eq, str_views, string_from_chars, to_lowercase, trim,
};

verus! {

broadcast use vstd::string::group_string_axioms;

// ---------------------------------------------------------------------------
// Export types
// ---------------------------------------------------------------------------

/// What to export.
#[derive(Clone, Copy, PartialEq, Eq, Structural, Debug)]
pub enum ExportType {
    Memories,
    Observations,
    Lessons,
    Crystals,
    Sessions,
}

pub open spec fn export_type_name(t: ExportType) -> Seq<char> {
    match t {
        ExportType::Memories => "memories"@,
        ExportType::Observations => "observations"@,
        ExportType::Lessons => "lessons"@,
        ExportType::Crystals => "crystals"@,
        ExportType::Sessions => "sessions"@,
    }
}

/// The export type a name selects (ignoring case); `"all"` selects
/// memories.
pub open spec fn export_type_of(name: Seq<char>) -> Option<ExportType> {
    let l = lowercase(name);
    if l == "memories"@ || l == "memory"@ || l == "all"@ {
        Some(ExportType::Memories)
    } else if l == "observations"@ || l == "observation"@ {
        Some(ExportType::Observations)
    } else if l == "lessons"@ || l == "lesson"@ {
        Some(ExportType::Lessons)
    } else if l == "crystals"@ || l == "crystal"@ {
        Some(ExportType::Crystals)
    } else if l == "sessions"@ || l == "session"@ {
        Some(ExportType::Sessions)
    } else {
        None
    }
}

pub open spec fn unknown_export_type_message(name: Seq<char>) -> Seq<char> {
    "unknown export type: "@ + name + " (expected: memories, observations, lessons, crystals, sessions)"@
}

impl ExportType {
    /// The type's name, as it is displayed.
    pub fn to_string(&self) -> (r: String)
        ensures
            r@ == export_type_name(*self),
    {
        match self {
            ExportType::Memories => owned("memories"),
            ExportType::Observations => owned("observations"),
            ExportType::Lessons => owned("lessons"),
            ExportType::Crystals => owned("crystals"),
            ExportType::Sessions => owned("sessions"),
        }
    }

    /// Parse an export type name, singular or plural, ignoring case.
    pub fn parse_name(s: &str) -> (r: Result<ExportType, String>)
        ensures
            match r {
                Ok(t) => export_type_of(s@) == Some(t),
                Err(m) => export_type_of(s@) is None && m@ == unknown_export_type_message(s@),
            },
    {
        let l = to_lowercase(s);
        let l = l.as_str();
        if str_eq(l, "memories") || str_eq(l, "memory") || str_eq(l, "all") {
            Ok(ExportType::Memories)
        } else if str_eq(l, "observations") || str_eq(l, "observation") {
            Ok(ExportType::Observations)
        } else if str_eq(l, "lessons") || str_eq(l, "lesson") {
            Ok(ExportType::Lessons)
        } else if str_eq(l, "crystals") || str_eq(l, "crystal") {
            Ok(ExportType::Crystals)
        } else if str_eq(l, "sessions") || str_eq(l, "session") {
            Ok(ExportType::Sessions)
        } else {
            let mut m = owned("unknown export type: ");
            push_str(&mut m, s);
            push_str(&mut m, " (expected: memories, observations, lessons, crystals, sessions)");
            Err(m)
        }
    }
}

impl std::str::FromStr for ExportType {
    type Err = String;

    fn from_str(s: &str) -> (r: Result<ExportType, String>)
        ensures
            match r {
                Ok(t) => export_type_of(s@) == Some(t),
                Err(m) => export_type_of(s@) is None && m@ == unknown_export_type_message(s@),
            },
    {
        ExportType::parse_name(s)
    }
}

// ---------------------------------------------------------------------------
// Tags, file names and YAML values
// ---------------------------------------------------------------------------

pub open spec fn tag_char(c: char) -> char {
    if c == ' ' {
        '-'
    } else if is_unicode_alnum(c) || c == '-' || c == '_' {
        c
    } else {
        '_'
    }
}

/// A tag with spaces turned into `-`, other characters that are not
/// alphanumeric, `-` or `_` into `_`, then lower-cased.
pub open spec fn sanitize_tag_spec(tag: Seq<char>) -> Seq<char> {
    lowercase(tag.map_values(|c: char| tag_char(c)))
}

/// Sanitize a tag for YAML and inline `#tag` use.
pub fn sanitize_tag(tag: &str) -> (r: String)
    ensures
        r@ == sanitize_tag_spec(tag@),
{
    let cs = chars_of(tag);
    let mut out: Vec<char> = Vec::new();
    let mut i: usize = 0;
    while i < cs.len()
        invariant
            i <= cs@.len(),
            cs@ == tag@,
            out@ == tag@.take(i as int).map_values(|c: char| tag_char(c)),
        decreases cs.len() - i,
    {
        let c = cs[i];
        let m = if c == ' ' {
            '-'
        } else if crate::text::is_alphanumeric(c) || c == '-' || c == '_' {
            c
        } else {
            '_'
        };
        out.push(m);
        proof {
            assert(tag@.take(i + 1).map_values(|c: char| tag_char(c)) =~= tag@.take(i as int).map_values(
                |c: char| tag_char(c),
            ).push(m));
        }
        i += 1;
    }
    proof {
        assert(tag@.take(tag@.len() as int) =~= tag@);
    }
    let s = string_from_chars(out.as_slice());
    to_lowercase(s.as_str())
}

pub open spec fn filename_char(c: char) -> char {
    if c == '/' || c == '\\' || c == ':' || c == '*' || c == '?' || c == '"' || c == '<' || c == '>'
        || c == '|' {
        '_'
    } else {
        c
    }
}

/// The non-empty pieces, in order.
pub open spec fn nonempty_pieces(ps: Seq<Seq<char>>) -> Seq<Seq<char>>
    decreases ps.len(),
{
    if ps.len() == 0 {
        Seq::empty()
    } else if ps.last().len() == 0 {
        nonempty_pieces(ps.drop_last())
    } else {
        nonempty_pieces(ps.drop_last()).push(ps.last())
    }
}

/// A file name with path and shell-special characters turned into `_`,
/// runs of `_` collapsed (and leading or trailing ones dropped), trimmed.
pub open spec fn sanitize_filename_spec(name: Seq<char>) -> Seq<char> {
    trim(join(nonempty_pieces(split_on(name.map_values(|c: char| filename_char(c)), '_')), "_"@))
}

/// Sanitize a string for use as a file name.
pub fn sanitize_filename(name: &str) -> (r: String)
    ensures
        r@ == sanitize_filename_spec(name@),
{
    let cs = chars_of(name);
    let mut mapped: Vec<char> = Vec::new();
    let mut i: usize = 0;
    while i < cs.len()
        invariant
            i <= cs@.len(),
            cs@ == name@,
            mapped@ == name@.take(i as int).map_values(|c: char| filename_char(c)),
        decreases cs.len() - i,
    {
        let c = cs[i];
        let m = if c == '/' || c == '\\' || c == ':' || c == '*' || c == '?' || c == '"' || c == '<'
            || c == '>' || c == '|' {
            '_'
        } else {
            c
        };
        mapped.push(m);
        proof {
            assert(name@.take(i + 1).map_values(|c: char| filename_char(c)) =~= name@.take(i as int).map_values(
                |c: char| filename_char(c),
            ).push(m));
        }
        i += 1;
    }
    proof {
        assert(name@.take(name@.len() as int) =~= name@);
    }
    let pieces = crate::text::split_chars(mapped.as_slice(), '_');
    let ghost ps = split_on(mapped@, '_');
    let mut joined: Vec<char> = Vec::new();
    let mut count: usize = 0;
    let mut k: usize = 0;
    while k < pieces.len()
        invariant
            k <= pieces@.len(),
            pieces@.len() == ps.len(),
            forall|j: int| 0 <= j < pieces@.len() ==> #[trigger] pieces@[j]@ == ps[j],
            count == nonempty_pieces(ps.take(k as int)).len(),
            count <= k,
            joined@ == join(nonempty_pieces(ps.take(k as int)), "_"@),
        decreases pieces.len() - k,
    {
        proof {
            assert(ps.take(k + 1).drop_last() =~= ps.take(k as int));
            assert(ps.take(k + 1).last() == pieces@[k as int]@);
        }
        if pieces[k].len() > 0 {
            let ghost before = joined@;
            let ghost np = nonempty_pieces(ps.take(k as int));
            if count > 0 {
                joined.push('_');
            }
            let mut j: usize = 0;
            let ghost mid = joined@;
            while j < pieces[k].len()
                invariant
                    k < pieces@.len(),
                    j <= pieces@[k as int]@.len(),
                    joined@ == mid + pieces@[k as int]@.take(j as int),
                decreases pieces@[k as int]@.len() - j,
            {
                joined.push(pieces[k][j]);
                proof {
                    assert(pieces@[k as int]@.take(j + 1) =~= pieces@[k as int]@.take(j as int).push(
                        pieces@[k as int]@[j as int],
                    ));
                }
                j += 1;
            }
            proof {
                assert(pieces@[k as int]@.take(pieces@[k as int]@.len() as int) =~= pieces@[k as int]@);
                let np2 = np.push(pieces@[k as int]@);
                assert(np2.drop_last() =~= np);
                if count == 0 {
                    assert(np.len() == 0);
                    assert(before =~= Seq::<char>::empty());
                    assert(mid =~= before);
                    assert(np2.len() == 1);
                    assert(joined@ =~= np2[0]);
                    assert(join(np2, "_"@) == np2[0]);
                } else {
                    reveal_strlit("_");
                    assert(np2.len() >= 2);
                    assert(mid =~= before + "_"@);
                    assert(joined@ =~= join(np2, "_"@));
                }
            }
            count = count + 1;
        }
        k += 1;
    }
    proof {
        assert(ps.take(ps.len() as int) =~= ps);
    }
    let t = crate::text::trim_chars(joined.as_slice());
    string_from_chars(t.as_slice())
}

/// A YAML value needs quoting: empty, starting with an indicator
/// character, or holding `:`, `#`, a newline or a quote.
pub open spec fn yaml_needs_quotes(v: Seq<char>) -> bool {
    v.len() == 0 || v[0] == '{' || v[0] == '[' || v[0] == '"' || v[0] == '\'' || v[0] == '*' || v[0]
        == '?' || v[0] == '-' || v.contains(':') || v.contains('#') || v.contains('\n') || v.contains(
        '"',
    ) || v.contains('\'')
}

/// `\` and `"` escaped with a backslash.
pub open spec fn escape_quotes(v: Seq<char>) -> Seq<char>
    decreases v.len(),
{
    if v.len() == 0 {
        Seq::empty()
    } else {
        let c = v.last();
        escape_quotes(v.drop_last()) + if c == '\\' {
            seq!['\\', '\\']
        } else if c == '"' {
            seq!['\\', '"']
        } else {
            seq![c]
        }
    }
}

/// `"` alone escaped with a backslash.
pub open spec fn escape_dquotes(v: Seq<char>) -> Seq<char>
    decreases v.len(),
{
    if v.len() == 0 {
        Seq::empty()
    } else {
        let c = v.last();
        escape_dquotes(v.drop_last()) + if c == '"' {
            seq!['\\', '"']
        } else {
            seq![c]
        }
    }
}

fn escape_exec(v: &str, backslashes: bool) -> (r: String)
    ensures
        r@ == if backslashes {
            escape_quotes(v@)
        } else {
            escape_dquotes(v@)
        },
{
    let cs = chars_of(v);
    let mut out: Vec<char> = Vec::new();
    let mut i: usize = 0;
    while i < cs.len()
        invariant
            i <= cs@.len(),
            cs@ == v@,
            out@ == if backslashes {
                escape_quotes(v@.take(i as int))
            } else {
                escape_dquotes(v@.take(i as int))
            },
        decreases cs.len() - i,
    {
        let c = cs[i];
        proof {
            assert(v@.take(i + 1).drop_last() =~= v@.take(i as int));
        }
        if backslashes && c == '\\' {
            out.push('\\');
            out.push('\\');
        } else if c == '"' {
            out.push('\\');
            out.push('"');
        } else {
            out.push(c);
        }
        proof {
            let t = v@.take(i + 1);
            assert(t.last() == c);
            if backslashes {
                assert(out@ =~= escape_quotes(t));
            } else {
                assert(out@ =~= escape_dquotes(t));
            }
        }
        i += 1;
    }
    proof {
        assert(v@.take(v@.len() as int) =~= v@);
    }
    string_from_chars(out.as_slice())
}

pub open spec fn yaml_str_spec(v: Seq<char>) -> Seq<char> {
    if yaml_needs_quotes(v) {
        "\""@ + escape_quotes(v) + "\""@
    } else {
        v
    }
}

/// Reading the inside of a YAML double-quoted scalar: `\\` gives `\`,
/// `\"` gives `"`, any other character stands for itself; `None` when an
/// unescaped `"` would end the scalar early or a backslash starts some
/// other escape.
pub open spec fn yaml_dq_read(s: Seq<char>) -> Option<Seq<char>>
    decreases s.len(),
{
    if s.len() == 0 {
        Some(Seq::empty())
    } else if s[0] == '"' {
        None
    } else if s[0] == '\\' {
        if s.len() >= 2 && (s[1] == '\\' || s[1] == '"') {
            match yaml_dq_read(s.skip(2)) {
                Some(r) => Some(seq![s[1]] + r),
                None => None,
            }
        } else {
            None
        }
    } else {
        match yaml_dq_read(s.skip(1)) {
            Some(r) => Some(seq![s[0]] + r),
            None => None,
        }
    }
}

proof fn lemma_escape_quotes_concat(a: Seq<char>, b: Seq<char>)
    ensures
        escape_quotes(a + b) == escape_quotes(a) + escape_quotes(b),
    decreases b.len(),
{
    if b.len() == 0 {
        assert(a + b =~= a);
        assert(escape_quotes(a) + escape_quotes(b) =~= escape_quotes(a));
    } else {
        lemma_escape_quotes_concat(a, b.drop_last());
        assert((a + b).drop_last() =~= a + b.drop_last());
        assert((a + b).last() == b.last());
    }
}

proof fn lemma_escape_quotes_reads_back(v: Seq<char>)
    ensures
        yaml_dq_read(escape_quotes(v)) == Some(v),
    decreases v.len(),
{
    if v.len() == 0 {
        assert(escape_quotes(v) =~= Seq::<char>::empty());
        assert(v =~= Seq::<char>::empty());
    } else {
        let c = v[0];
        let rest = v.skip(1);
        assert(seq![c] + rest =~= v);
        lemma_escape_quotes_concat(seq![c], rest);
        let one = seq![c];
        assert(one.drop_last() =~= Seq::<char>::empty());
        assert(one.last() == c);
        assert(escape_quotes(one.drop_last()) =~= Seq::<char>::empty());
        let ec = escape_quotes(one);
        let e = escape_quotes(v);
        lemma_escape_quotes_reads_back(rest);
        if c == '\\' || c == '"' {
            assert(ec =~= seq!['\\', c]);
            assert(e.skip(2) =~= escape_quotes(rest));
        } else {
            assert(ec =~= seq![c]);
            assert(e.skip(1) =~= escape_quotes(rest));
        }
        assert(seq![c] + rest =~= v);
    }
}

/// A quoted YAML scalar reads back as the value it was written from: its
/// inside, read as a double-quoted scalar (`\\` as `\`, `\"` as `"`),
/// is the value itself, so every backslash and quote of the value is
/// escaped; a value written bare is the value itself, non-empty, opening
/// with no indicator character and holding no `:`, `#`, line break or
/// quote.
pub proof fn lemma_yaml_str_reads_back(v: Seq<char>)
    ensures
        yaml_needs_quotes(v) ==> {
            let q = yaml_str_spec(v);
            &&& q.len() >= 2
            &&& q[0] == '"'
            &&& q.last() == '"'
            &&& yaml_dq_read(q.subrange(1, q.len() - 1)) == Some(v)
        },
        !yaml_needs_quotes(v) ==> yaml_str_spec(v) == v,
        yaml_str_spec(v).len() == 0 || yaml_str_spec(v)[0] != '"' ==> {
            let q = yaml_str_spec(v);
            &&& q == v
            &&& q.len() > 0
            &&& q[0] != '{' && q[0] != '[' && q[0] != '\'' && q[0] != '*' && q[0] != '?' && q[0] != '-'
            &&& forall|i: int|
                0 <= i < q.len() ==> #[trigger] q[i] != ':' && q[i] != '#' && q[i] != '\n' && q[i] != '"' && q[i]
                    != '\''
        },
{
    reveal_strlit("\"");
    if yaml_needs_quotes(v) {
        let q = yaml_str_spec(v);
        lemma_escape_quotes_reads_back(v);
        assert(q.subrange(1, q.len() - 1) =~= escape_quotes(v));
    } else {
        assert forall|i: int| 0 <= i < v.len() implies #[trigger] v[i] != ':' && v[i] != '#' && v[i] != '\n' && v[i]
            != '"' && v[i] != '\'' by {
            if v[i] == ':' {
                assert(v.contains(':'));
            }
            if v[i] == '#' {
                assert(v.contains('#'));
            }
            if v[i] == '\n' {
                assert(v.contains('\n'));
            }
            if v[i] == '"' {
                assert(v.contains('"'));
            }
            if v[i] == '\'' {
                assert(v.contains('\''));
            }
        }
    }
}

/// A YAML scalar: quoted (with `\` and `"` escaped) when it needs to be.
pub fn yaml_str(value: &str) -> (r: String)
    ensures
        r@ == yaml_str_spec(value@),
{
    let cs = chars_of(value);
    let n = cs.len();
    let quote = n == 0 || cs[0] == '{' || cs[0] == '[' || cs[0] == '"' || cs[0] == '\'' || cs[0] == '*'
        || cs[0] == '?' || cs[0] == '-' || crate::text::str_contains_char(value, ':')
        || crate::text::str_contains_char(value, '#') || crate::text::str_contains_char(value, '\n')
        || crate::text::str_contains_char(value, '"') || crate::text::str_contains_char(value, '\'');
    if quote {
        let mut r = owned("\"");
        let e = escape_exec(value, true);
        push_str(&mut r, e.as_str());
        push_str(&mut r, "\"");
        r
    } else {
        owned(value)
    }
}

// ---------------------------------------------------------------------------
// Dates
// ---------------------------------------------------------------------------

/// What chrono prints for the UTC instant `secs` seconds after the epoch
/// with a `strftime`-style format, or `None` when the instant is out of
/// chrono's range or the format has an invalid specifier (the format
/// language is not restated here).
pub uninterp spec fn utc_formatted(secs: i64, fmt: Seq<char>) -> Option<Seq<char>>;

/// `DateTime::<Utc>::from_timestamp(secs, 0)` formatted with `fmt`.  The
/// result is named by [`utc_formatted`]; `None` when chrono has no such
/// instant or reports a formatting error.
#[verifier::external_body]
pub(crate) fn format_utc(secs: i64, fmt: &str) -> (r: Option<String>)
    ensures
        match r {
            Some(s) => utc_formatted(secs, fmt@) == Some(s@),
            None => utc_formatted(secs, fmt@) is None,
        },
{
    let dt = chrono::DateTime::from_timestamp(secs, 0)?;
    let mut out = String::new();
    match write!(out, "{}", dt.format(fmt)) {
        Ok(()) => Some(out),
        Err(_) => None,
    }
}

pub open spec fn date_ok(secs: i64, fmt: Seq<char>) -> bool {
    utc_formatted(secs, fmt) is Some
}

pub open spec fn date_text(secs: i64, fmt: Seq<char>) -> Seq<char> {
    utc_formatted(secs, fmt)->0
}

fn date_string(secs: i64, fmt: &str) -> (r: String)
    requires
        date_ok(secs, fmt@),
    ensures
        r@ == date_text(secs, fmt@),
{
    match format_utc(secs, fmt) {
        Some(s) => s,
        None => String::new(),
    }
}

// ---------------------------------------------------------------------------
// Markdown pieces
// ---------------------------------------------------------------------------

/// `prefix + item + suffix` for each item, in order.
pub open spec fn each_line(prefix: Seq<char>, items: Seq<Seq<char>>, suffix: Seq<char>) -> Seq<char>
    decreases items.len(),
{
    if items.len() == 0 {
        Seq::empty()
    } else {
        each_line(prefix, items.drop_last(), suffix) + prefix + items.last() + suffix
    }
}

fn push_each(md: &mut String, prefix: &str, items: &Vec<String>, suffix: &str)
    ensures
        final(md)@ == old(md)@ + each_line(prefix@, str_views(items@), suffix@),
{
    let ghost start = md@;
    let ghost iv = str_views(items@);
    let mut k: usize = 0;
    while k < items.len()
        invariant
            k <= items@.len(),
            iv == str_views(items@),
            md@ == start + each_line(prefix@, iv.take(k as int), suffix@),
        decreases items.len() - k,
    {
        push_str(md, prefix);
        push_str(md, items[k].as_str());
        push_str(md, suffix);
        proof {
            assert(iv.take(k + 1).drop_last() =~= iv.take(k as int));
            assert(iv.take(k + 1).last() == items@[k as int]@);
            assert(md@ =~= start + each_line(prefix@, iv.take(k + 1), suffix@));
        }
        k += 1;
    }
    proof {
        assert(iv.take(iv.len() as int) =~= iv);
    }
}

/// Join strings with a separator.
pub fn join_strings(parts: &Vec<String>, sep: &str) -> (r: String)
    ensures
        r@ == join(str_views(parts@), sep@),
{
    let ghost pv = str_views(parts@);
    let mut out = String::new();
    let mut k: usize = 0;
    while k < parts.len()
        invariant
            k <= parts@.len(),
            pv == str_views(parts@),
            out@ == join(pv.take(k as int), sep@),
        decreases parts.len() - k,
    {
        let ghost before = out@;
        if k > 0 {
            push_str(&mut out, sep);
        }
        push_str(&mut out, parts[k].as_str());
        proof {
            let t = pv.take(k + 1);
            assert(t.drop_last() =~= pv.take(k as int));
            assert(t.last() == parts@[k as int]@);
            if k == 0 {
                assert(before =~= Seq::<char>::empty());
                assert(out@ =~= t[0]);
            }
            assert(out@ =~= join(t, sep@));
        }
        k += 1;
    }
    proof {
        assert(pv.take(pv.len() as int) =~= pv);
    }
    out
}

pub open spec fn hash_tag(t: Seq<char>) -> Seq<char> {
    "#"@ + sanitize_tag_spec(t)
}

/// The inline `#tag` line of a body, followed by a blank line; empty
/// without tags.
pub open spec fn inline_tags_spec(tags: Seq<Seq<char>>) -> Seq<char> {
    if tags.len() == 0 {
        Seq::empty()
    } else {
        join(tags.map_values(|t: Seq<char>| hash_tag(t)), " "@) + "\n\n"@
    }
}

pub fn render_inline_tags(tags: &Vec<String>) -> (r: String)
    ensures
        r@ == inline_tags_spec(str_views(tags@)),
{
    if tags.len() == 0 {
        return String::new();
    }
    let ghost tv = str_views(tags@);
    let mut rendered: Vec<String> = Vec::new();
    let mut k: usize = 0;
    while k < tags.len()
        invariant
            k <= tags@.len(),
            tv == str_views(tags@),
            str_views(rendered@) == tv.take(k as int).map_values(|t: Seq<char>| hash_tag(t)),
        decreases tags.len() - k,
    {
        let mut h = owned("#");
        let st = sanitize_tag(tags[k].as_str());
        push_str(&mut h, st.as_str());
        let ghost before = rendered@;
        rendered.push(h);
        proof {
            assert(str_views(rendered@) =~= str_views(before).push(hash_tag(tags@[k as int]@)));
            assert(tv.take(k + 1).map_values(|t: Seq<char>| hash_tag(t)) =~= tv.take(k as int).map_values(
                |t: Seq<char>| hash_tag(t),
            ).push(hash_tag(tv[k as int])));
        }
        k += 1;
    }
    proof {
        assert(tv.take(tv.len() as int) =~= tv);
    }
    let mut r = join_strings(&rendered, " ");
    push_str(&mut r, "\n\n");
    r
}

/// A `## title` section linking each id with `label`; empty without ids.
pub open spec fn wikilinks_spec(title: Seq<char>, ids: Seq<Seq<char>>, label: Seq<char>) -> Seq<char> {
    if ids.len() == 0 {
        Seq::empty()
    } else {
        "## "@ + title + "\n\n"@ + each_line("- [["@, ids, "|"@ + label + "]]\n"@) + "\n"@
    }
}

pub fn render_wikilinks(title: &str, ids: &Vec<String>, label: &str) -> (r: String)
    ensures
        r@ == wikilinks_spec(title@, str_views(ids@), label@),
{
    if ids.len() == 0 {
        return String::new();
    }
    let mut md = owned("## ");
    push_str(&mut md, title);
    push_str(&mut md, "\n\n");
    let mut suffix = owned("|");
    push_str(&mut suffix, label);
    push_str(&mut suffix, "]]\n");
    push_each(&mut md, "- [[", ids, suffix.as_str());
    push_str(&mut md, "\n");
    md
}

pub open spec fn quoted(x: Seq<char>, escape: bool) -> Seq<char> {
    "\""@ + (if escape {
        escape_dquotes(x)
    } else {
        x
    }) + "\""@
}

/// `["a", "b"]`: each item in double quotes (with `"` escaped when
/// `escape`), comma-separated, in brackets.
pub open spec fn quoted_list_spec(items: Seq<Seq<char>>, escape: bool) -> Seq<char> {
    "["@ + join(items.map_values(|x: Seq<char>| quoted(x, escape)), ", "@) + "]"@
}

fn quoted_list(items: &Vec<String>, escape: bool) -> (r: String)
    ensures
        r@ == quoted_list_spec(str_views(items@), escape),
{
    let ghost iv = str_views(items@);
    let mut q: Vec<String> = Vec::new();
    let mut k: usize = 0;
    while k < items.len()
        invariant
            k <= items@.len(),
            iv == str_views(items@),
            str_views(q@) == iv.take(k as int).map_values(|x: Seq<char>| quoted(x, escape)),
        decreases items.len() - k,
    {
        let mut s = owned("\"");
        if escape {
            let e = escape_exec(items[k].as_str(), false);
            push_str(&mut s, e.as_str());
        } else {
            push_str(&mut s, items[k].as_str());
        }
        push_str(&mut s, "\"");
        let ghost before = q@;
        q.push(s);
        proof {
            assert(str_views(q@) =~= str_views(before).push(quoted(iv[k as int], escape)));
            assert(iv.take(k + 1).map_values(|x: Seq<char>| quoted(x, escape)) =~= iv.take(k as int).map_values(
                |x: Seq<char>| quoted(x, escape),
            ).push(quoted(iv[k as int], escape)));
        }
        k += 1;
    }
    proof {
        assert(iv.take(iv.len() as int) =~= iv);
    }
    let mut r = owned("[");
    let j = join_strings(&q, ", ");
    push_str(&mut r, j.as_str());
    push_str(&mut r, "]");
    r
}

/// A value in hundredths written with two decimals (`0.50` for 50).
pub open spec fn fixed2(h: nat) -> Seq<char> {
    decimal(h / 100) + "."@ + decimal((h % 100) / 10) + decimal(h % 10)
}

fn fixed2_string(h: u32) -> (r: String)
    ensures
        r@ == fixed2(h as nat),
{
    let mut r = decimal_string((h / 100) as u64);
    push_str(&mut r, ".");
    let a = decimal_string(((h % 100) / 10) as u64);
    let b = decimal_string((h % 10) as u64);
    push_str(&mut r, a.as_str());
    push_str(&mut r, b.as_str());
    r
}

// ---------------------------------------------------------------------------
// Frontmatter
// ---------------------------------------------------------------------------

/// Extra frontmatter fields as `key: value` lines.
pub open spec fn extra_lines(extra: Seq<(Seq<char>, Seq<char>)>) -> Seq<char>
    decreases extra.len(),
{
    if extra.len() == 0 {
        Seq::empty()
    } else {
        extra_lines(extra.drop_last()) + extra.last().0 + ": "@ + extra.last().1 + "\n"@
    }
}

pub open spec fn pair_views(v: Seq<(String, String)>) -> Seq<(Seq<char>, Seq<char>)> {
    v.map_values(|p: (String, String)| (p.0@, p.1@))
}

/// YAML frontmatter: id, title, type and date, then tags (when enabled),
/// aliases and the extra fields.
pub open spec fn frontmatter_spec(
    id: Seq<char>,
    title: Seq<char>,
    entry_type: Seq<char>,
    date: Seq<char>,
    include_tags: bool,
    tags: Seq<Seq<char>>,
    aliases: Seq<Seq<char>>,
    extra: Seq<(Seq<char>, Seq<char>)>,
) -> Seq<char> {
    "---\n"@ + "id: "@ + id + "\n"@ + "title: "@ + yaml_str_spec(title) + "\n"@ + "type: "@ + entry_type
        + "\n"@ + "date: "@ + date + "\n"@ + (if include_tags && tags.len() > 0 {
        "tags:\n"@ + each_line("  - "@, tags.map_values(|t: Seq<char>| sanitize_tag_spec(t)), "\n"@)
    } else {
        Seq::empty()
    }) + (if aliases.len() > 0 {
        "aliases:\n"@ + each_line("  - "@, aliases.map_values(|a: Seq<char>| yaml_str_spec(a)), "\n"@)
    } else {
        Seq::empty()
    }) + extra_lines(extra) + "---\n\n"@
}

fn sanitize_all(tags: &Vec<String>) -> (r: Vec<String>)
    ensures
        str_views(r@) == str_views(tags@).map_values(|t: Seq<char>| sanitize_tag_spec(t)),
{
    let ghost tv = str_views(tags@);
    let mut r: Vec<String> = Vec::new();
    let mut k: usize = 0;
    while k < tags.len()
        invariant
            k <= tags@.len(),
            tv == str_views(tags@),
            str_views(r@) == tv.take(k as int).map_values(|t: Seq<char>| sanitize_tag_spec(t)),
        decreases tags.len() - k,
    {
        let ghost before = r@;
        r.push(sanitize_tag(tags[k].as_str()));
        proof {
            assert(str_views(r@) =~= str_views(before).push(sanitize_tag_spec(tv[k as int])));
            assert(tv.take(k + 1).map_values(|t: Seq<char>| sanitize_tag_spec(t)) =~= tv.take(k as int).map_values(
                |t: Seq<char>| sanitize_tag_spec(t),
            ).push(sanitize_tag_spec(tv[k as int])));
        }
        k += 1;
    }
    proof {
        assert(tv.take(tv.len() as int) =~= tv);
    }
    r
}

fn yaml_all(items: &Vec<String>) -> (r: Vec<String>)
    ensures
        str_views(r@) == str_views(items@).map_values(|a: Seq<char>| yaml_str_spec(a)),
{
    let ghost tv = str_views(items@);
    let mut r: Vec<String> = Vec::new();
    let mut k: usize = 0;
    while k < items.len()
        invariant
            k <= items@.len(),
            tv == str_views(items@),
            str_views(r@) == tv.take(k as int).map_values(|a: Seq<char>| yaml_str_spec(a)),
        decreases items.len() - k,
    {
        let ghost before = r@;
        r.push(yaml_str(items[k].as_str()));
        proof {
            assert(str_views(r@) =~= str_views(before).push(yaml_str_spec(tv[k as int])));
            assert(tv.take(k + 1).map_values(|a: Seq<char>| yaml_str_spec(a)) =~= tv.take(k as int).map_values(
                |a: Seq<char>| yaml_str_spec(a),
            ).push(yaml_str_spec(tv[k as int])));
        }
        k += 1;
    }
    proof {
        assert(tv.take(tv.len() as int) =~= tv);
    }
    r
}

fn push_extra(md: &mut String, extra: &Vec<(String, String)>)
    ensures
        final(md)@ == old(md)@ + extra_lines(pair_views(extra@)),
{
    let ghost start = md@;
    let ghost ev = pair_views(extra@);
    let mut k: usize = 0;
    while k < extra.len()
        invariant
            k <= extra@.len(),
            ev == pair_views(extra@),
            md@ == start + extra_lines(ev.take(k as int)),
        decreases extra.len() - k,
    {
        push_str(md, extra[k].0.as_str());
        push_str(md, ": ");
        push_str(md, extra[k].1.as_str());
        push_str(md, "\n");
        proof {
            assert(ev.take(k + 1).drop_last() =~= ev.take(k as int));
            assert(ev.take(k + 1).last() == (extra@[k as int].0@, extra@[k as int].1@));
            assert(md@ =~= start + extra_lines(ev.take(k + 1)));
        }
        k += 1;
    }
    proof {
        assert(ev.take(ev.len() as int) =~= ev);
    }
}

fn build_frontmatter(
    id: &str,
    title: &str,
    entry_type: &str,
    date: &str,
    include_tags: bool,
    tags: &Vec<String>,
    aliases: &Vec<String>,
    extra: &Vec<(String, String)>,
) -> (r: String)
    ensures
        r@ == frontmatter_spec(
            id@,
            title@,
            entry_type@,
            date@,
            include_tags,
            str_views(tags@),
            str_views(aliases@),
            pair_views(extra@),
        ),
{
    let mut fm = owned("---\n");
    push_str(&mut fm, "id: ");
    push_str(&mut fm, id);
    push_str(&mut fm, "\n");
    push_str(&mut fm, "title: ");
    let yt = yaml_str(title);
    push_str(&mut fm, yt.as_str());
    push_str(&mut fm, "\n");
    push_str(&mut fm, "type: ");
    push_str(&mut fm, entry_type);
    push_str(&mut fm, "\n");
    push_str(&mut fm, "date: ");
    push_str(&mut fm, date);
    push_str(&mut fm, "\n");
    let ghost head = fm@;
    if include_tags && tags.len() > 0 {
        push_str(&mut fm, "tags:\n");
        let st = sanitize_all(tags);
        push_each(&mut fm, "  - ", &st, "\n");
    }
    let ghost with_tags = fm@;
    if aliases.len() > 0 {
        push_str(&mut fm, "aliases:\n");
        let ya = yaml_all(aliases);
        push_each(&mut fm, "  - ", &ya, "\n");
    }
    let ghost with_aliases = fm@;
    push_extra(&mut fm, extra);
    push_str(&mut fm, "---\n\n");
    proof {
        assert(fm@ =~= frontmatter_spec(
            id@,
            title@,
            entry_type@,
            date@,
            include_tags,
            str_views(tags@),
            str_views(aliases@),
            pair_views(extra@),
        ));
    }
    fm
}

// ---------------------------------------------------------------------------
// Configuration and results
// ---------------------------------------------------------------------------

/// Configuration of an Obsidian export.
pub struct ObsidianExportConfig {
    pub output_dir: String,
    pub include_frontmatter: bool,
    pub include_tags: bool,
    pub include_links: bool,
    pub tag_prefix: String,
    /// `strftime`-style format of frontmatter dates.
    pub date_format: String,
    /// Generate a Map of Content index file linking all exported items.
    pub generate_moc: bool,
    /// Inline `#tags` in the markdown body (not just in YAML).
    pub inline_tags: bool,
    /// Only export these types; empty exports all requested.
    pub export_types: Vec<ExportType>,
}

impl ObsidianExportConfig {
    /// The default configuration for an output directory and date format:
    /// everything included, tags under `mempalace/`.
    pub fn new(output_dir: String, date_format: String) -> (r: Self)
        ensures
            r.output_dir@ == output_dir@,
            r.date_format@ == date_format@,
            r.include_frontmatter && r.include_tags && r.include_links && r.generate_moc && r.inline_tags,
            r.tag_prefix@ == "mempalace/"@,
            r.export_types@.len() == 0,
    {
        ObsidianExportConfig {
            output_dir,
            include_frontmatter: true,
            include_tags: true,
            include_links: true,
            tag_prefix: owned("mempalace/"),
            date_format,
            generate_moc: true,
            inline_tags: true,
            export_types: Vec::new(),
        }
    }
}

/// One entry of the Map of Content index.
pub struct MocEntry {
    pub title: String,
    pub path: String,
    pub entry_type: String,
    pub date: Option<String>,
    pub tags: Vec<String>,
}

/// Result of an export operation.
pub struct ObsidianExportResult {
    pub exported_count: usize,
    pub output_dir: String,
    pub files: Vec<String>,
    pub moc_path: Option<String>,
}

// ---------------------------------------------------------------------------
// Shared pieces of the renderers
// ---------------------------------------------------------------------------

/// At most the first `n` characters of `s`.
pub open spec fn first_chars(s: Seq<char>, n: nat) -> Seq<char> {
    if s.len() <= n {
        s
    } else {
        s.take(n as int)
    }
}

fn first_chars_string(s: &str, n: usize) -> (r: String)
    ensures
        r@ == first_chars(s@, n as nat),
{
    let cs = chars_of(s);
    if cs.len() <= n {
        owned(s)
    } else {
        let t = crate::text::take_chars(cs.as_slice(), n);
        string_from_chars(t.as_slice())
    }
}

fn copy_all(v: &Vec<String>) -> (r: Vec<String>)
    ensures
        str_views(r@) == str_views(v@),
{
    let mut r: Vec<String> = Vec::new();
    let mut k: usize = 0;
    while k < v.len()
        invariant
            k <= v@.len(),
            str_views(r@) == str_views(v@).take(k as int),
        decreases v.len() - k,
    {
        let ghost before = r@;
        r.push(copy_string(&v[k]));
        proof {
            assert(str_views(r@) =~= str_views(before).push(v@[k as int]@));
            assert(str_views(v@).take(k + 1) =~= str_views(v@).take(k as int).push(v@[k as int]@));
            assert(str_views(r@) =~= str_views(v@).take(k + 1));
        }
        k += 1;
    }
    proof {
        assert(str_views(v@).take(v@.len() as int) =~= str_views(v@));
    }
    r
}

fn append_all(dst: &mut Vec<String>, v: &Vec<String>)
    ensures
        str_views(final(dst)@) == str_views(old(dst)@) + str_views(v@),
{
    let ghost start = str_views(dst@);
    let mut k: usize = 0;
    while k < v.len()
        invariant
            k <= v@.len(),
            str_views(dst@) == start + str_views(v@).take(k as int),
        decreases v.len() - k,
    {
        let ghost before = dst@;
        dst.push(copy_string(&v[k]));
        proof {
            assert(str_views(dst@) =~= str_views(before).push(v@[k as int]@));
            assert(str_views(v@).take(k + 1) =~= str_views(v@).take(k as int).push(v@[k as int]@));
            assert(str_views(dst@) =~= start + str_views(v@).take(k + 1));
        }
        k += 1;
    }
    proof {
        assert(str_views(v@).take(v@.len() as int) =~= str_views(v@));
    }
}

fn push_pair(extra: &mut Vec<(String, String)>, key: &str, value: String)
    ensures
        pair_views(final(extra)@) == pair_views(old(extra)@).push((key@, value@)),
{
    let ghost before = extra@;
    extra.push((owned(key), value));
    proof {
        assert(pair_views(extra@) =~= pair_views(before).push((key@, value@)));
    }
}

/// An optional field as a list of at most one `key: value` pair.
pub open spec fn opt_field(key: Seq<char>, v: Option<Seq<char>>) -> Seq<(Seq<char>, Seq<char>)> {
    match v {
        Some(x) => seq![(key, x)],
        None => Seq::empty(),
    }
}

/// A list field, present when the list is not empty.
pub open spec fn list_field(key: Seq<char>, items: Seq<Seq<char>>, escape: bool) -> Seq<(Seq<char>, Seq<char>)> {
    if items.len() > 0 {
        seq![(key, quoted_list_spec(items, escape))]
    } else {
        Seq::empty()
    }
}

pub open spec fn opt_view(o: Option<String>) -> Option<Seq<char>> {
    match o {
        Some(s) => Some(s@),
        None => None,
    }
}

pub open spec fn opt_yaml(o: Option<String>) -> Option<Seq<char>> {
    match o {
        Some(s) => Some(yaml_str_spec(s@)),
        None => None,
    }
}

/// A `## heading` section with one line per item, then a blank line;
/// empty without items.
pub open spec fn list_section(heading: Seq<char>, prefix: Seq<char>, items: Seq<Seq<char>>, suffix: Seq<char>) -> Seq<char> {
    if items.len() > 0 {
        "## "@ + heading + "\n\n"@ + each_line(prefix, items, suffix) + "\n"@
    } else {
        Seq::empty()
    }
}

fn push_list_section(md: &mut String, heading: &str, prefix: &str, items: &Vec<String>, suffix: &str)
    ensures
        final(md)@ == old(md)@ + list_section(heading@, prefix@, str_views(items@), suffix@),
{
    if items.len() > 0 {
        push_str(md, "## ");
        push_str(md, heading);
        push_str(md, "\n\n");
        push_each(md, prefix, items, suffix);
        push_str(md, "\n");
    } else {
        proof {
            assert(md@ =~= old(md)@ + list_section(heading@, prefix@, str_views(items@), suffix@));
        }
    }
}

pub open spec fn inline_part(c: ObsidianExportConfig, tags: Seq<Seq<char>>) -> Seq<char> {
    if c.inline_tags && tags.len() > 0 {
        inline_tags_spec(tags)
    } else {
        Seq::empty()
    }
}

pub open spec fn front_part(
    c: ObsidianExportConfig,
    id: Seq<char>,
    title: Seq<char>,
    entry_type: Seq<char>,
    secs: i64,
    tags: Seq<Seq<char>>,
    aliases: Seq<Seq<char>>,
    extra: Seq<(Seq<char>, Seq<char>)>,
) -> Seq<char> {
    if c.include_frontmatter {
        frontmatter_spec(id, title, entry_type, date_text(secs, c.date_format@), c.include_tags, tags, aliases, extra)
    } else {
        Seq::empty()
    }
}

fn push_front(
    md: &mut String,
    config: &ObsidianExportConfig,
    id: &str,
    title: &str,
    entry_type: &str,
    secs: i64,
    tags: &Vec<String>,
    aliases: &Vec<String>,
    extra: &Vec<(String, String)>,
)
    requires
        config.include_frontmatter ==> date_ok(secs, config.date_format@),
    ensures
        final(md)@ == old(md)@ + front_part(
            *config,
            id@,
            title@,
            entry_type@,
            secs,
            str_views(tags@),
            str_views(aliases@),
            pair_views(extra@),
        ),
{
    if config.include_frontmatter {
        let date = date_string(secs, config.date_format.as_str());
        let fm = build_frontmatter(id, title, entry_type, date.as_str(), config.include_tags, tags, aliases, extra);
        push_str(md, fm.as_str());
    } else {
        proof {
            assert(md@ =~= old(md)@ + Seq::<char>::empty());
        }
    }
}

fn push_inline(md: &mut String, config: &ObsidianExportConfig, tags: &Vec<String>)
    ensures
        final(md)@ == old(md)@ + inline_part(*config, str_views(tags@)),
{
    if config.inline_tags && tags.len() > 0 {
        let t = render_inline_tags(tags);
        push_str(md, t.as_str());
    } else {
        proof {
            assert(md@ =~= old(md)@ + Seq::<char>::empty());
        }
    }
}

// ---------------------------------------------------------------------------
// Memories
// ---------------------------------------------------------------------------

pub open spec fn memory_title(m: Memory) -> Seq<char> {
    flatten_newlines(trim(m.title@))
}

pub open spec fn memory_extra(m: Memory) -> Seq<(Seq<char>, Seq<char>)> {
    seq![
        ("memory_type"@, m.memory_type@),
        ("strength"@, fixed2(m.strength_hundredths as nat)),
        ("version"@, decimal(m.version as nat)),
        ("project"@, yaml_str_spec(m.project@)),
    ] + opt_field("parent_id"@, opt_view(m.parent_id)) + list_field("files"@, str_views(m.files@), false)
}

/// A memory as Obsidian markdown.
pub open spec fn memory_md_spec(m: Memory, c: ObsidianExportConfig) -> Seq<char> {
    let title = memory_title(m);
    let tags = str_views(m.concepts@);
    front_part(
        c,
        m.id@,
        title,
        "memory"@,
        m.created_at,
        tags,
        str_views(m.related_ids@) + str_views(m.source_observation_ids@),
        memory_extra(m),
    ) + "# "@ + title + "\n\n"@ + m.content@ + "\n\n"@ + inline_part(c, tags) + if c.include_links {
        wikilinks_spec("Related"@, str_views(m.related_ids@), "related"@) + wikilinks_spec(
            "Sources"@,
            str_views(m.source_observation_ids@),
            "source"@,
        ) + wikilinks_spec("Supersedes"@, str_views(m.supersedes@), "superseded"@)
    } else {
        Seq::empty()
    }
}

/// Export a memory as Obsidian markdown: frontmatter (type, strength,
/// version, project, parent, files; related and source ids as aliases),
/// title, content, inline tags and wikilinks to related, source and
/// superseded items.
#[verifier::spinoff_prover]
pub fn memory_to_obsidian_md(memory: &Memory, config: &ObsidianExportConfig) -> (r: String)
    requires
        config.include_frontmatter ==> date_ok(memory.created_at, config.date_format@),
    ensures
        r@ == memory_md_spec(*memory, *config),
{
    let trimmed = crate::text::trim_str(memory.title.as_str());
    let title = flatten_newlines_exec(trimmed.as_str());
    let mut aliases = copy_all(&memory.related_ids);
    append_all(&mut aliases, &memory.source_observation_ids);
    let mut extra: Vec<(String, String)> = Vec::new();
    push_pair(&mut extra, "memory_type", copy_string(&memory.memory_type));
    push_pair(&mut extra, "strength", fixed2_string(memory.strength_hundredths));
    push_pair(&mut extra, "version", decimal_string(memory.version as u64));
    push_pair(&mut extra, "project", yaml_str(memory.project.as_str()));
    let ghost base = pair_views(extra@);
    match &memory.parent_id {
        Some(p) => push_pair(&mut extra, "parent_id", copy_string(p)),
        None => {},
    }
    let ghost with_parent = pair_views(extra@);
    if memory.files.len() > 0 {
        push_pair(&mut extra, "files", quoted_list(&memory.files, false));
    }
    proof {
        assert(with_parent =~= base + opt_field("parent_id"@, opt_view(memory.parent_id)));
        assert(pair_views(extra@) =~= memory_extra(*memory));
    }
    let mut md = String::new();
    push_front(&mut md, config, memory.id.as_str(), title.as_str(), "memory", memory.created_at, &memory.concepts, &aliases, &extra);
    push_str(&mut md, "# ");
    push_str(&mut md, title.as_str());
    push_str(&mut md, "\n\n");
    push_str(&mut md, memory.content.as_str());
    push_str(&mut md, "\n\n");
    push_inline(&mut md, config, &memory.concepts);
    let ghost body = md@;
    if config.include_links {
        let a = render_wikilinks("Related", &memory.related_ids, "related");
        let b = render_wikilinks("Sources", &memory.source_observation_ids, "source");
        let c = render_wikilinks("Supersedes", &memory.supersedes, "superseded");
        push_str(&mut md, a.as_str());
        push_str(&mut md, b.as_str());
        push_str(&mut md, c.as_str());
    }
    proof {
        assert(md@ =~= memory_md_spec(*memory, *config));
    }
    md
}

// ---------------------------------------------------------------------------
// Observations
// ---------------------------------------------------------------------------

pub open spec fn observation_extra(o: CompressedObservation) -> Seq<(Seq<char>, Seq<char>)> {
    seq![
        ("observation_type"@, type_display_name(o.observation_type)),
        ("importance"@, decimal(o.importance as nat)),
        ("confidence"@, fixed2(o.confidence_hundredths as nat)),
        ("session"@, o.session_id@),
    ] + opt_field("agent_id"@, opt_view(o.agent_id))
}

/// An observation as Obsidian markdown.
pub open spec fn observation_md_spec(o: CompressedObservation, c: ObsidianExportConfig) -> Seq<char> {
    let title = trim(o.title@);
    let tags = str_views(o.concepts@);
    front_part(c, o.id@, title, "observation"@, o.timestamp, tags, seq![o.session_id@], observation_extra(o))
        + "# "@ + title + "\n\n"@ + (match o.subtitle {
        Some(st) => "> "@ + st@ + "\n\n"@,
        None => Seq::empty(),
    }) + o.narrative@ + "\n\n"@ + inline_part(c, tags) + list_section("Facts"@, "- "@, str_views(o.facts@), "\n"@)
        + list_section("Files"@, "- `"@, str_views(o.files@), "`\n"@)
}

/// Export an observation as Obsidian markdown: frontmatter (type,
/// importance, confidence, session as alias), title, subtitle quote,
/// narrative, inline tags, facts and files.
#[verifier::spinoff_prover]
pub fn observation_to_obsidian_md(obs: &CompressedObservation, config: &ObsidianExportConfig) -> (r: String)
    requires
        config.include_frontmatter ==> date_ok(obs.timestamp, config.date_format@),
    ensures
        r@ == observation_md_spec(*obs, *config),
{
    let title = crate::text::trim_str(obs.title.as_str());
    let mut aliases: Vec<String> = Vec::new();
    aliases.push(copy_string(&obs.session_id));
    proof {
        assert(str_views(aliases@) =~= seq![obs.session_id@]);
    }
    let mut extra: Vec<(String, String)> = Vec::new();
    push_pair(&mut extra, "observation_type", obs.observation_type.to_string());
    push_pair(&mut extra, "importance", decimal_string(obs.importance as u64));
    push_pair(&mut extra, "confidence", fixed2_string(obs.confidence_hundredths));
    push_pair(&mut extra, "session", copy_string(&obs.session_id));
    match &obs.agent_id {
        Some(a) => push_pair(&mut extra, "agent_id", copy_string(a)),
        None => {},
    }
    proof {
        assert(pair_views(extra@) =~= observation_extra(*obs));
    }
    let mut md = String::new();
    push_front(&mut md, config, obs.id.as_str(), title.as_str(), "observation", obs.timestamp, &obs.concepts, &aliases, &extra);
    push_str(&mut md, "# ");
    push_str(&mut md, title.as_str());
    push_str(&mut md, "\n\n");
    match &obs.subtitle {
        Some(st) => {
            push_str(&mut md, "> ");
            push_str(&mut md, st.as_str());
            push_str(&mut md, "\n\n");
        },
        None => {},
    }
    push_str(&mut md, obs.narrative.as_str());
    push_str(&mut md, "\n\n");
    push_inline(&mut md, config, &obs.concepts);
    push_list_section(&mut md, "Facts", "- ", &obs.facts, "\n");
    push_list_section(&mut md, "Files", "- `", &obs.files, "`\n");
    proof {
        assert(md@ =~= observation_md_spec(*obs, *config));
    }
    md
}

// ---------------------------------------------------------------------------
// Lessons
// ---------------------------------------------------------------------------

pub open spec fn lesson_extra(l: Lesson) -> Seq<(Seq<char>, Seq<char>)> {
    seq![
        ("confidence"@, fixed2(l.confidence_hundredths as nat)),
        ("retention"@, fixed2(l.retention_hundredths as nat)),
        ("reinforcement_count"@, decimal(l.reinforcement_count as nat)),
    ] + opt_field("context"@, opt_yaml(l.context)) + opt_field("project"@, opt_yaml(l.project))
        + opt_field("source"@, opt_yaml(l.source))
}

/// A lesson as Obsidian markdown.
pub open spec fn lesson_md_spec(l: Lesson, c: ObsidianExportConfig) -> Seq<char> {
    let title = first_chars(l.content@, 80);
    let tags = str_views(l.tags@);
    front_part(c, l.id@, title, "lesson"@, l.created_at, tags, str_views(l.source_ids@), lesson_extra(l))
        + "# Lesson: "@ + title + "\n\n"@ + l.content@ + "\n\n"@ + (match l.context {
        Some(ctx) => "> Context: "@ + ctx@ + "\n\n"@,
        None => Seq::empty(),
    }) + inline_part(c, tags) + if c.include_links && l.source_ids@.len() > 0 {
        wikilinks_spec("Related Memories"@, str_views(l.source_ids@), "source memory"@)
    } else {
        Seq::empty()
    }
}

/// Export a lesson as Obsidian markdown: frontmatter (confidence,
/// retention, reinforcements, context, project, source; source ids as
/// aliases), the first 80 characters as title, content, context quote,
/// inline tags and links to the source memories.
#[verifier::spinoff_prover]
pub fn lesson_to_obsidian_md(lesson: &Lesson, config: &ObsidianExportConfig) -> (r: String)
    requires
        config.include_frontmatter ==> date_ok(lesson.created_at, config.date_format@),
    ensures
        r@ == lesson_md_spec(*lesson, *config),
{
    let title = first_chars_string(lesson.content.as_str(), 80);
    let mut extra: Vec<(String, String)> = Vec::new();
    push_pair(&mut extra, "confidence", fixed2_string(lesson.confidence_hundredths));
    push_pair(&mut extra, "retention", fixed2_string(lesson.retention_hundredths));
    push_pair(&mut extra, "reinforcement_count", decimal_string(lesson.reinforcement_count as u64));
    let ghost e0 = pair_views(extra@);
    match &lesson.context {
        Some(x) => push_pair(&mut extra, "context", yaml_str(x.as_str())),
        None => {},
    }
    let ghost e1 = pair_views(extra@);
    match &lesson.project {
        Some(x) => push_pair(&mut extra, "project", yaml_str(x.as_str())),
        None => {},
    }
    let ghost e2 = pair_views(extra@);
    match &lesson.source {
        Some(x) => push_pair(&mut extra, "source", yaml_str(x.as_str())),
        None => {},
    }
    proof {
        assert(e1 =~= e0 + opt_field("context"@, opt_yaml(lesson.context)));
        assert(e2 =~= e1 + opt_field("project"@, opt_yaml(lesson.project)));
        assert(pair_views(extra@) =~= lesson_extra(*lesson));
    }
    let mut md = String::new();
    push_front(&mut md, config, lesson.id.as_str(), title.as_str(), "lesson", lesson.created_at, &lesson.tags, &lesson.source_ids, &extra);
    push_str(&mut md, "# Lesson: ");
    push_str(&mut md, title.as_str());
    push_str(&mut md, "\n\n");
    push_str(&mut md, lesson.content.as_str());
    push_str(&mut md, "\n\n");
    match &lesson.context {
        Some(ctx) => {
            push_str(&mut md, "> Context: ");
            push_str(&mut md, ctx.as_str());
            push_str(&mut md, "\n\n");
        },
        None => {},
    }
    push_inline(&mut md, config, &lesson.tags);
    if config.include_links && lesson.source_ids.len() > 0 {
        let w = render_wikilinks("Related Memories", &lesson.source_ids, "source memory");
        push_str(&mut md, w.as_str());
    }
    proof {
        assert(md@ =~= lesson_md_spec(*lesson, *config));
    }
    md
}

// ---------------------------------------------------------------------------
// Crystals
// ---------------------------------------------------------------------------

/// The first line of the narrative (or the id when there is none), cut to
/// 80 characters.
pub open spec fn crystal_title(c: Crystal) -> Seq<char> {
    let ls = lines(c.narrative@);
    first_chars(
        if ls.len() > 0 {
            ls[0]
        } else {
            c.id@
        },
        80,
    )
}

pub open spec fn crystal_extra(c: Crystal) -> Seq<(Seq<char>, Seq<char>)> {
    opt_field("project"@, opt_yaml(c.project)) + opt_field("session"@, opt_view(c.session_id)) + list_field(
        "key_outcomes"@,
        str_views(c.key_outcomes@),
        true,
    ) + list_field("files_affected"@, str_views(c.files_affected@), false) + list_field(
        "lessons"@,
        str_views(c.lessons@),
        true,
    )
}

/// A crystal as Obsidian markdown.
pub open spec fn crystal_md_spec(c: Crystal, cfg: ObsidianExportConfig) -> Seq<char> {
    let title = crystal_title(c);
    let tags = str_views(c.lessons@);
    front_part(cfg, c.id@, title, "crystal"@, c.created_at, tags, str_views(c.action_ids@), crystal_extra(c))
        + "# "@ + title + "\n\n"@ + c.narrative@ + "\n\n"@ + inline_part(cfg, tags) + list_section(
        "Key Outcomes"@,
        "- "@,
        str_views(c.key_outcomes@),
        "\n"@,
    ) + list_section("Files Affected"@, "- `"@, str_views(c.files_affected@), "`\n"@) + list_section(
        "Lessons"@,
        "- "@,
        str_views(c.lessons@),
        "\n"@,
    ) + if cfg.include_links && c.action_ids@.len() > 0 {
        wikilinks_spec("Actions"@, str_views(c.action_ids@), "action"@)
    } else {
        Seq::empty()
    }
}

/// Export a crystal as Obsidian markdown: frontmatter (project, session,
/// outcomes, files and lessons as lists; actions as aliases; lessons as
/// tags), the narrative's first line as title, narrative, inline tags,
/// sections for outcomes, files and lessons, and links to the actions.
#[verifier::spinoff_prover]
pub fn crystal_to_obsidian_md(crystal: &Crystal, config: &ObsidianExportConfig) -> (r: String)
    requires
        config.include_frontmatter ==> date_ok(crystal.created_at, config.date_format@),
    ensures
        r@ == crystal_md_spec(*crystal, *config),
{
    let nc = chars_of(crystal.narrative.as_str());
    let ls = crate::text::lines_of(nc.as_slice());
    let first = if ls.len() > 0 {
        string_from_chars(ls[0].as_slice())
    } else {
        copy_string(&crystal.id)
    };
    let title = first_chars_string(first.as_str(), 80);
    let mut extra: Vec<(String, String)> = Vec::new();
    match &crystal.project {
        Some(x) => push_pair(&mut extra, "project", yaml_str(x.as_str())),
        None => {},
    }
    let ghost e0 = pair_views(extra@);
    match &crystal.session_id {
        Some(x) => push_pair(&mut extra, "session", copy_string(x)),
        None => {},
    }
    let ghost e1 = pair_views(extra@);
    if crystal.key_outcomes.len() > 0 {
        push_pair(&mut extra, "key_outcomes", quoted_list(&crystal.key_outcomes, true));
    }
    let ghost e2 = pair_views(extra@);
    if crystal.files_affected.len() > 0 {
        push_pair(&mut extra, "files_affected", quoted_list(&crystal.files_affected, false));
    }
    let ghost e3 = pair_views(extra@);
    if crystal.lessons.len() > 0 {
        push_pair(&mut extra, "lessons", quoted_list(&crystal.lessons, true));
    }
    proof {
        assert(e0 =~= opt_field("project"@, opt_yaml(crystal.project)));
        assert(e1 =~= e0 + opt_field("session"@, opt_view(crystal.session_id)));
        assert(e2 =~= e1 + list_field("key_outcomes"@, str_views(crystal.key_outcomes@), true));
        assert(e3 =~= e2 + list_field("files_affected"@, str_views(crystal.files_affected@), false));
        assert(pair_views(extra@) =~= crystal_extra(*crystal));
    }
    let mut md = String::new();
    push_front(&mut md, config, crystal.id.as_str(), title.as_str(), "crystal", crystal.created_at, &crystal.lessons, &crystal.action_ids, &extra);
    push_str(&mut md, "# ");
    push_str(&mut md, title.as_str());
    push_str(&mut md, "\n\n");
    push_str(&mut md, crystal.narrative.as_str());
    push_str(&mut md, "\n\n");
    push_inline(&mut md, config, &crystal.lessons);
    push_list_section(&mut md, "Key Outcomes", "- ", &crystal.key_outcomes, "\n");
    push_list_section(&mut md, "Files Affected", "- `", &crystal.files_affected, "`\n");
    push_list_section(&mut md, "Lessons", "- ", &crystal.lessons, "\n");
    if config.include_links && crystal.action_ids.len() > 0 {
        let w = render_wikilinks("Actions", &crystal.action_ids, "action");
        push_str(&mut md, w.as_str());
    }
    proof {
        assert(md@ =~= crystal_md_spec(*crystal, *config));
    }
    md
}

// ---------------------------------------------------------------------------
// Sessions
// ---------------------------------------------------------------------------

pub open spec fn session_title(se: Session) -> Seq<char> {
    first_chars(
        match se.first_prompt {
            Some(p) => p@,
            None => "Untitled Session"@,
        },
        80,
    )
}

pub open spec fn session_extra(se: Session, c: ObsidianExportConfig) -> Seq<(Seq<char>, Seq<char>)> {
    seq![
        ("project"@, yaml_str_spec(se.project@)),
        ("status"@, se.status@),
        ("observation_count"@, decimal(se.observation_count as nat)),
    ] + opt_field("model"@, opt_view(se.model)) + opt_field("agent_id"@, opt_view(se.agent_id)) + opt_field(
        "ended_at"@,
        match se.ended_at {
            Some(e) => Some(date_text(e, c.date_format@)),
            None => None,
        },
    ) + list_field("commits"@, str_views(se.commit_shas@), false)
}

/// A session as Obsidian markdown.
pub open spec fn session_md_spec(se: Session, c: ObsidianExportConfig) -> Seq<char> {
    let title = session_title(se);
    let tags = str_views(se.tags@);
    front_part(c, se.id@, title, "session"@, se.started_at, tags, seq![se.project@], session_extra(se, c))
        + "# Session: "@ + title + "\n\n"@ + (match se.summary {
        Some(su) => "## Summary\n\n"@ + su@ + "\n\n"@,
        None => Seq::empty(),
    }) + (match se.first_prompt {
        Some(p) => "## First Prompt\n\n"@ + "> "@ + p@ + "\n\n"@,
        None => Seq::empty(),
    }) + inline_part(c, tags) + "## Metadata\n\n"@ + "- **Project**: "@ + se.project@ + "\n"@
        + "- **Status**: "@ + se.status@ + "\n"@ + "- **Observations**: "@ + decimal(se.observation_count as nat)
        + "\n"@ + (match se.model {
        Some(m) => "- **Model**: "@ + m@ + "\n"@,
        None => Seq::empty(),
    }) + "\n"@
}

/// The dates a session renderer formats can be formatted.
pub open spec fn session_dates_ok(se: Session, c: ObsidianExportConfig) -> bool {
    &&& c.include_frontmatter ==> date_ok(se.started_at, c.date_format@)
    &&& se.ended_at matches Some(e) ==> date_ok(e, c.date_format@)
}

fn session_extra_exec(session: &Session, config: &ObsidianExportConfig) -> (extra: Vec<(String, String)>)
    requires
        session_dates_ok(*session, *config),
    ensures
        pair_views(extra@) == session_extra(*session, *config),
{
    let mut extra: Vec<(String, String)> = Vec::new();
    push_pair(&mut extra, "project", yaml_str(session.project.as_str()));
    push_pair(&mut extra, "status", copy_string(&session.status));
    push_pair(&mut extra, "observation_count", decimal_string(session.observation_count));
    let ghost e0 = pair_views(extra@);
    match &session.model {
        Some(x) => push_pair(&mut extra, "model", copy_string(x)),
        None => {},
    }
    let ghost e1 = pair_views(extra@);
    match &session.agent_id {
        Some(x) => push_pair(&mut extra, "agent_id", copy_string(x)),
        None => {},
    }
    let ghost e2 = pair_views(extra@);
    match session.ended_at {
        Some(e) => push_pair(&mut extra, "ended_at", date_string(e, config.date_format.as_str())),
        None => {},
    }
    let ghost e3 = pair_views(extra@);
    if session.commit_shas.len() > 0 {
        push_pair(&mut extra, "commits", quoted_list(&session.commit_shas, false));
    }
    proof {
        assert(e1 =~= e0 + opt_field("model"@, opt_view(session.model)));
        assert(e2 =~= e1 + opt_field("agent_id"@, opt_view(session.agent_id)));
        assert(e3 =~= e2 + opt_field(
            "ended_at"@,
            match session.ended_at {
                Some(e) => Some(date_text(e, config.date_format@)),
                None => None,
            },
        ));
        assert(pair_views(extra@) =~= session_extra(*session, *config));
    }
    extra
}

fn push_session_metadata(md: &mut String, session: &Session)
    ensures
        final(md)@ == old(md)@ + "## Metadata\n\n"@ + "- **Project**: "@ + session.project@ + "\n"@
            + "- **Status**: "@ + session.status@ + "\n"@ + "- **Observations**: "@ + decimal(
            session.observation_count as nat,
        ) + "\n"@ + (match session.model {
            Some(m) => "- **Model**: "@ + m@ + "\n"@,
            None => Seq::empty(),
        }) + "\n"@,
{
    push_str(md, "## Metadata\n\n");
    push_str(md, "- **Project**: ");
    push_str(md, session.project.as_str());
    push_str(md, "\n");
    push_str(md, "- **Status**: ");
    push_str(md, session.status.as_str());
    push_str(md, "\n");
    push_str(md, "- **Observations**: ");
    let n = decimal_string(session.observation_count);
    push_str(md, n.as_str());
    push_str(md, "\n");
    match &session.model {
        Some(m) => {
            push_str(md, "- **Model**: ");
            push_str(md, m.as_str());
            push_str(md, "\n");
        },
        None => {},
    }
    push_str(md, "\n");
}

/// Export a session as Obsidian markdown: frontmatter (project, status,
/// observation count, model, agent, end time, commits; project as alias),
/// the first prompt (80 characters) as title, summary, first prompt, inline
/// tags and a metadata section.
#[verifier::spinoff_prover]
#[verifier::rlimit(40)]
pub fn session_to_obsidian_md(session: &Session, config: &ObsidianExportConfig) -> (r: String)
    requires
        session_dates_ok(*session, *config),
    ensures
        r@ == session_md_spec(*session, *config),
{
    let title = match &session.first_prompt {
        Some(p) => first_chars_string(p.as_str(), 80),
        None => first_chars_string("Untitled Session", 80),
    };
    let mut aliases: Vec<String> = Vec::new();
    aliases.push(copy_string(&session.project));
    proof {
        assert(str_views(aliases@) =~= seq![session.project@]);
    }
    let extra = session_extra_exec(session, config);
    let mut md = String::new();
    push_front(&mut md, config, session.id.as_str(), title.as_str(), "session", session.started_at, &session.tags, &aliases, &extra);
    push_str(&mut md, "# Session: ");
    push_str(&mut md, title.as_str());
    push_str(&mut md, "\n\n");
    match &session.summary {
        Some(su) => {
            push_str(&mut md, "## Summary\n\n");
            push_str(&mut md, su.as_str());
            push_str(&mut md, "\n\n");
        },
        None => {},
    }
    match &session.first_prompt {
        Some(p) => {
            push_str(&mut md, "## First Prompt\n\n");
            push_str(&mut md, "> ");
            push_str(&mut md, p.as_str());
            push_str(&mut md, "\n\n");
        },
        None => {},
    }
    push_inline(&mut md, config, &session.tags);
    push_session_metadata(&mut md, session);
    proof {
        assert(md@ =~= session_md_spec(*session, *config));
    }
    md
}

// ---------------------------------------------------------------------------
// Any exportable item
// ---------------------------------------------------------------------------

/// An item to export.
pub enum ExportItem {
    Memory(Memory),
    Observation(CompressedObservation),
    Lesson(Lesson),
    Crystal(Crystal),
    Session(Session),
}

/// Every date the renderer of an item formats can be formatted.
pub open spec fn item_dates_ok(item: ExportItem, c: ObsidianExportConfig) -> bool {
    match item {
        ExportItem::Memory(m) => c.include_frontmatter ==> date_ok(m.created_at, c.date_format@),
        ExportItem::Observation(o) => c.include_frontmatter ==> date_ok(o.timestamp, c.date_format@),
        ExportItem::Lesson(l) => c.include_frontmatter ==> date_ok(l.created_at, c.date_format@),
        ExportItem::Crystal(cr) => c.include_frontmatter ==> date_ok(cr.created_at, c.date_format@),
        ExportItem::Session(se) => session_dates_ok(se, c),
    }
}

pub open spec fn item_md_spec(item: ExportItem, c: ObsidianExportConfig) -> Seq<char> {
    match item {
        ExportItem::Memory(m) => memory_md_spec(m, c),
        ExportItem::Observation(o) => observation_md_spec(o, c),
        ExportItem::Lesson(l) => lesson_md_spec(l, c),
        ExportItem::Crystal(cr) => crystal_md_spec(cr, c),
        ExportItem::Session(se) => session_md_spec(se, c),
    }
}

fn date_formats(secs: i64, fmt: &str) -> (r: bool)
    ensures
        r == date_ok(secs, fmt@),
{
    format_utc(secs, fmt).is_some()
}

/// Render any item as Obsidian markdown, or `None` when one of its dates
/// cannot be formatted with the configured date format.
pub fn render_item(item: &ExportItem, config: &ObsidianExportConfig) -> (r: Option<String>)
    ensures
        match r {
            Some(md) => item_dates_ok(*item, *config) && md@ == item_md_spec(*item, *config),
            None => !item_dates_ok(*item, *config),
        },
{
    let fmt = config.date_format.as_str();
    match item {
        ExportItem::Memory(m) => {
            if config.include_frontmatter && !date_formats(m.created_at, fmt) {
                return None;
            }
            Some(memory_to_obsidian_md(m, config))
        },
        ExportItem::Observation(o) => {
            if config.include_frontmatter && !date_formats(o.timestamp, fmt) {
                return None;
            }
            Some(observation_to_obsidian_md(o, config))
        },
        ExportItem::Lesson(l) => {
            if config.include_frontmatter && !date_formats(l.created_at, fmt) {
                return None;
            }
            Some(lesson_to_obsidian_md(l, config))
        },
        ExportItem::Crystal(c) => {
            if config.include_frontmatter && !date_formats(c.created_at, fmt) {
                return None;
            }
            Some(crystal_to_obsidian_md(c, config))
        },
        ExportItem::Session(se) => {
            if config.include_frontmatter && !date_formats(se.started_at, fmt) {
                return None;
            }
            match se.ended_at {
                Some(e) => if !date_formats(e, fmt) {
                    return None;
                },
                None => {},
            }
            Some(session_to_obsidian_md(se, config))
        },
    }
}

} // verus!
