//! The drawer store's own logic around its SQLite database: the rows it
//! lists, the full-text query it builds from what a user typed, the title
//! it gives a drawer, and the check that a database file is SQLite at all.
use vstd::prelude::*;
use crate::json::{as_str, get, json_as_str, json_get, Json};
use crate::obsidian_export::join_strings;
use crate::text::{
    chars_of, join, lines, lines_of, owned, push_str, string_from_chars, str_views, take_chars, trim, trim_chars,
    ws_tokens, split_whitespace,
};

verus! {

broadcast use vstd::string::group_string_axioms;

/// A drawer as listed by the store.
pub struct DrawerRow {
    pub id: String,
    pub title: String,
    pub source_file: Option<String>,
    pub filed_at: String,
    pub wing: String,
}

// ---------------------------------------------------------------------------
// Full-text queries
// ---------------------------------------------------------------------------

/// A term's characters with each double quote doubled.
pub open spec fn fts_escape(t: Seq<char>) -> Seq<char>
    decreases t.len(),
{
    if t.len() == 0 {
        Seq::empty()
    } else {
        fts_escape(t.drop_last()) + if t.last() == '"' {
            seq!['"', '"']
        } else {
            seq![t.last()]
        }
    }
}

/// A term as an FTS5 string: in double quotes, so that no character in it
/// is an operator.
pub open spec fn fts_term(t: Seq<char>) -> Seq<char> {
    seq!['"'] + fts_escape(t) + seq!['"']
}

/// The FTS5 query for what a user typed: each white-space separated term
/// quoted, all of them required (joined by ` AND `); empty without terms.
pub open spec fn fts_query(q: Seq<char>) -> Seq<char> {
    join(ws_tokens(q).map_values(|t: Seq<char>| fts_term(t)), " AND "@)
}

fn quote_term(t: &[char]) -> (r: String)
    ensures
        r@ == fts_term(t@),
{
    let mut out: Vec<char> = Vec::new();
    out.push('"');
    let mut k: usize = 0;
    proof {
        assert(t@.take(0) =~= Seq::<char>::empty());
        assert(out@ =~= seq!['"'] + fts_escape(t@.take(0)));
    }
    while k < t.len()
        invariant
            k <= t@.len(),
            out@ == seq!['"'] + fts_escape(t@.take(k as int)),
        decreases t.len() - k,
    {
        let ghost before = out@;
        proof {
            assert(t@.take(k + 1).drop_last() =~= t@.take(k as int));
            assert(t@.take(k + 1).last() == t@[k as int]);
        }
        if t[k] == '"' {
            out.push('"');
            out.push('"');
        } else {
            out.push(t[k]);
        }
        proof {
            assert(out@ =~= seq!['"'] + fts_escape(t@.take(k + 1)));
        }
        k += 1;
    }
    out.push('"');
    proof {
        assert(t@.take(t@.len() as int) =~= t@);
        assert(out@ =~= fts_term(t@));
    }
    string_from_chars(out.as_slice())
}

/// Build the FTS5 query for what a user typed.
pub fn build_fts_query(user_query: &str) -> (r: String)
    ensures
        r@ == fts_query(user_query@),
{
    let cs = chars_of(user_query);
    let toks = split_whitespace(cs.as_slice());
    let ghost tv = ws_tokens(user_query@);
    let mut terms: Vec<String> = Vec::new();
    let mut k: usize = 0;
    while k < toks.len()
        invariant
            k <= toks@.len(),
            cs@ == user_query@,
            tv == ws_tokens(user_query@),
            toks@.len() == tv.len(),
            forall|i: int| 0 <= i < toks@.len() ==> #[trigger] toks@[i]@ == tv[i],
            str_views(terms@) == tv.take(k as int).map_values(|t: Seq<char>| fts_term(t)),
        decreases toks.len() - k,
    {
        let q = quote_term(toks[k].as_slice());
        let ghost before = str_views(terms@);
        terms.push(q);
        proof {
            assert(str_views(terms@) =~= before.push(fts_term(tv[k as int])));
            assert(tv.take(k + 1).map_values(|t: Seq<char>| fts_term(t)) =~= tv.take(k as int).map_values(
                |t: Seq<char>| fts_term(t),
            ).push(fts_term(tv[k as int])));
        }
        k += 1;
    }
    proof {
        assert(tv.take(tv.len() as int) =~= tv);
    }
    join_strings(&terms, " AND ")
}

// ---------------------------------------------------------------------------
// Titles
// ---------------------------------------------------------------------------

/// The first line of a text (empty when it has none).
pub open spec fn first_line(s: Seq<char>) -> Seq<char> {
    if lines(s).len() > 0 {
        lines(s)[0]
    } else {
        Seq::empty()
    }
}

/// A drawer's title: the metadata's `title`, trimmed, when that is a
/// non-blank string; else the content's first line, trimmed and cut to 80
/// characters.
pub open spec fn drawer_title(metadata: Option<Json>, content: Seq<char>) -> Seq<char> {
    let t = match metadata {
        Some(m) => as_str(get(m, "title"@)),
        None => None,
    };
    if t is Some && trim(t->0).len() > 0 {
        trim(t->0)
    } else {
        let l = trim(first_line(content));
        if l.len() > 80 {
            l.take(80)
        } else {
            l
        }
    }
}

/// The title of a drawer from its metadata (the JSON it parses as, if
/// any) and its content.
pub fn title_from_metadata_or_content(metadata: Option<&Json>, content: &str) -> (r: String)
    ensures
        r@ == drawer_title(
            match metadata {
                Some(m) => Some(*m),
                None => None,
            },
            content@,
        ),
{
    match metadata {
        Some(m) => match json_as_str(json_get(m, "title")) {
            Some(t) => {
                let tc = chars_of(t);
                let tt = trim_chars(tc.as_slice());
                if tt.len() > 0 {
                    return string_from_chars(tt.as_slice());
                }
            },
            None => {},
        },
        None => {},
    }
    let cs = chars_of(content);
    let ls = lines_of(cs.as_slice());
    let first: Vec<char> = if ls.len() > 0 {
        trim_chars(ls[0].as_slice())
    } else {
        let none: Vec<char> = Vec::new();
        proof {
            assert(trim(Seq::<char>::empty()) =~= Seq::<char>::empty()) by {
                reveal_with_fuel(crate::text::trim_start, 1);
                reveal_with_fuel(crate::text::trim_end, 1);
            }
        }
        none
    };
    if first.len() > 80 {
        string_from_chars(take_chars(first.as_slice(), 80).as_slice())
    } else {
        string_from_chars(first.as_slice())
    }
}

// ---------------------------------------------------------------------------
// The database file
// ---------------------------------------------------------------------------

/// The 16 bytes a SQLite database file starts with: `SQLite format 3`
/// and a zero byte.
pub open spec fn sqlite_magic() -> Seq<u8> {
    seq![83u8, 81, 76, 105, 116, 101, 32, 102, 111, 114, 109, 97, 116, 32, 51, 0]
}

pub open spec fn empty_file_message(path: Seq<char>) -> Seq<char> {
    "drawer store at "@ + path
        + " is empty (0 bytes); expected a SQLite database.              Delete the file and re-run `mpr init` / `mpr mine`, or restore from backup."@
}

pub open spec fn short_file_message(path: Seq<char>) -> Seq<char> {
    "drawer store at "@ + path + " is too short to be a SQLite database"@
}

pub open spec fn bad_magic_message(path: Seq<char>) -> Seq<char> {
    "drawer store at "@ + path
        + " is not a SQLite database (bad magic header). Expected the 16-byte SQLite format 3 magic. Restore from backup or delete and re-mine."@
}

/// Check an existing database file before opening it: `file_len` is its
/// size and `header` its first bytes (up to 16).  An empty file, one too
/// short for the header, or one whose header is not SQLite's is refused
/// with a message naming `path`.
pub fn check_sqlite_header(path: &str, file_len: u64, header: &[u8]) -> (r: Result<(), String>)
    ensures
        match r {
            Ok(()) => file_len > 0 && header@.len() >= 16 && header@.take(16) == sqlite_magic(),
            Err(m) => if file_len == 0 {
                m@ == empty_file_message(path@)
            } else if header@.len() < 16 {
                m@ == short_file_message(path@)
            } else {
                header@.take(16) != sqlite_magic() && m@ == bad_magic_message(path@)
            },
        },
{
    if file_len == 0 {
        let mut m = owned("drawer store at ");
        push_str(&mut m, path);
        push_str(
            &mut m,
            " is empty (0 bytes); expected a SQLite database.              Delete the file and re-run `mpr init` / `mpr mine`, or restore from backup.",
        );
        return Err(m);
    }
    if header.len() < 16 {
        let mut m = owned("drawer store at ");
        push_str(&mut m, path);
        push_str(&mut m, " is too short to be a SQLite database");
        return Err(m);
    }
    let magic: Vec<u8> = vec![83u8, 81, 76, 105, 116, 101, 32, 102, 111, 114, 109, 97, 116, 32, 51, 0];
    proof {
        assert(magic@ =~= sqlite_magic());
    }
    let mut k: usize = 0;
    while k < 16
        invariant
            k <= 16,
            file_len > 0,
            header@.len() >= 16,
            magic@ == sqlite_magic(),
            forall|i: int| 0 <= i < k ==> header@[i] == magic@[i],
        decreases 16 - k,
    {
        if header[k] != magic[k] {
            proof {
                assert(header@.take(16)[k as int] != sqlite_magic()[k as int]);
            }
            let mut m = owned("drawer store at ");
            push_str(&mut m, path);
            push_str(
                &mut m,
                " is not a SQLite database (bad magic header). Expected the 16-byte SQLite format 3 magic. Restore from backup or delete and re-mine.",
            );
            return Err(m);
        }
        k += 1;
    }
    proof {
        assert(header@.take(16) =~= sqlite_magic());
    }
    Ok(())
}

// ---------------------------------------------------------------------------
// Streaming export
// ---------------------------------------------------------------------------

/// A drawer as the streaming export reads it, in source order.
pub struct StreamRow {
    pub id: String,
    pub content: String,
    pub wing: String,
    pub room: String,
    pub source_file: Option<String>,
    pub filed_at: String,
}

/// The source a drawer is exported under.
pub open spec fn stream_source(r: StreamRow) -> Seq<char> {
    match r.source_file {
        Some(s) => s@,
        None => "unknown"@,
    }
}

/// A source's file name: `/` and `\` replaced by `_`, then `.md`.
pub open spec fn stream_file_name(source: Seq<char>) -> Seq<char> {
    source.map_values(|c: char|
        if c == '/' || c == '\\' {
            '_'
        } else {
            c
        }) + ".md"@
}

/// A drawer's block: its id as a heading, its content, its wing and room
/// (when either is set), when and from where it was filed, and a rule.
pub open spec fn stream_block(r: StreamRow) -> Seq<char> {
    "## "@ + r.id@ + "\n\n"@ + r.content@ + "\n\n"@ + (if r.wing@.len() > 0 || r.room@.len() > 0 {
        "**Wing:** "@ + r.wing@ + " | **Room:** "@ + r.room@ + "\n"@
    } else {
        Seq::empty()
    }) + "**Filed:** "@ + r.filed_at@ + " | **Source:** "@ + stream_source(r) + "\n"@ + "---\n\n"@
}

/// The files written, in the order they are opened: a new file each time
/// the source changes from the previous drawer's, the file left behind
/// getting one more newline.
pub open spec fn stream_files(rows: Seq<StreamRow>) -> Seq<(Seq<char>, Seq<char>)>
    decreases rows.len(),
{
    if rows.len() == 0 {
        Seq::empty()
    } else {
        let f = stream_files(rows.drop_last());
        let r = rows.last();
        if rows.len() > 1 && stream_source(rows.drop_last().last()) == stream_source(r) {
            f.update(f.len() - 1, (f.last().0, f.last().1 + stream_block(r)))
        } else {
            let closed = if f.len() > 0 {
                f.update(f.len() - 1, (f.last().0, f.last().1 + "\n"@))
            } else {
                f
            };
            closed.push((stream_file_name(stream_source(r)), stream_block(r)))
        }
    }
}

pub open spec fn known_stream_format(format: Seq<char>) -> bool {
    format == "basic-memory"@ || format == "markdown"@
}

pub open spec fn file_views(v: Seq<(String, String)>) -> Seq<(Seq<char>, Seq<char>)> {
    v.map_values(|f: (String, String)| (f.0@, f.1@))
}

proof fn lemma_stream_files_nonempty(rows: Seq<StreamRow>)
    requires
        rows.len() > 0,
    ensures
        stream_files(rows).len() > 0,
    decreases rows.len(),
{
    if rows.len() > 1 {
        lemma_stream_files_nonempty(rows.drop_last());
    }
}

fn stream_source_of(r: &StreamRow) -> (s: String)
    ensures
        s@ == stream_source(*r),
{
    match &r.source_file {
        Some(s) => s.clone(),
        None => owned("unknown"),
    }
}

#[verifier::spinoff_prover]
#[verifier::rlimit(40)]
fn write_block(out: &mut String, r: &StreamRow, source: &str)
    requires
        source@ == stream_source(*r),
    ensures
        final(out)@ == old(out)@ + stream_block(*r),
{
    let ghost start = out@;
    push_str(out, "## ");
    push_str(out, r.id.as_str());
    push_str(out, "\n\n");
    push_str(out, r.content.as_str());
    push_str(out, "\n\n");
    let ghost mid = out@;
    if !r.wing.as_str().is_empty() || !r.room.as_str().is_empty() {
        push_str(out, "**Wing:** ");
        push_str(out, r.wing.as_str());
        push_str(out, " | **Room:** ");
        push_str(out, r.room.as_str());
        push_str(out, "\n");
    }
    push_str(out, "**Filed:** ");
    push_str(out, r.filed_at.as_str());
    push_str(out, " | **Source:** ");
    push_str(out, source);
    push_str(out, "\n");
    push_str(out, "---\n\n");
    proof {
        assert(out@ =~= start + stream_block(*r));
    }
}

fn file_name_for(source: &str) -> (r: String)
    ensures
        r@ == stream_file_name(source@),
{
    let cs = chars_of(source);
    let mut out: Vec<char> = Vec::new();
    let mut k: usize = 0;
    while k < cs.len()
        invariant
            k <= cs@.len(),
            cs@ == source@,
            out@ == source@.take(k as int).map_values(|c: char|
                if c == '/' || c == '\\' {
                    '_'
                } else {
                    c
                }),
        decreases cs.len() - k,
    {
        let c = cs[k];
        let d = if c == '/' || c == '\\' {
            '_'
        } else {
            c
        };
        out.push(d);
        proof {
            assert(out@ =~= source@.take(k + 1).map_values(|c: char|
                if c == '/' || c == '\\' {
                    '_'
                } else {
                    c
                }));
        }
        k += 1;
    }
    proof {
        assert(source@.take(source@.len() as int) =~= source@);
    }
    let mut name = string_from_chars(out.as_slice());
    push_str(&mut name, ".md");
    name
}

/// The streaming export of drawers read in source order: the files to
/// write, in order (a later file of the same name replaces an earlier
/// one), and the error that stops it.  Only `basic-memory` and `markdown`
/// are known formats; with another, the first source's file is opened
/// empty and the export stops.
pub fn plan_stream_export(rows: &[StreamRow], format: &str) -> (r: (Vec<(String, String)>, Option<String>))
    ensures
        rows@.len() == 0 ==> r.0@.len() == 0 && r.1 is None,
        rows@.len() > 0 && known_stream_format(format@) ==> file_views(r.0@) == stream_files(rows@) && r.1 is None,
        rows@.len() > 0 && !known_stream_format(format@) ==> file_views(r.0@) == seq![
            (stream_file_name(stream_source(rows@[0])), Seq::<char>::empty()),
        ] && (r.1 matches Some(m) && m@ == "unknown export format '"@ + format@ + "'"@),
{
    let mut files: Vec<(String, String)> = Vec::new();
    if rows.len() == 0 {
        return (files, None);
    }
    if !(crate::text::str_eq(format, "basic-memory") || crate::text::str_eq(format, "markdown")) {
        let src = stream_source_of(&rows[0]);
        files.push((file_name_for(src.as_str()), String::new()));
        proof {
            assert(file_views(files@) =~= seq![(stream_file_name(stream_source(rows@[0])), Seq::<char>::empty())]);
        }
        let mut m = owned("unknown export format '");
        push_str(&mut m, format);
        push_str(&mut m, "'");
        return (files, Some(m));
    }
    let mut k: usize = 0;
    proof {
        assert(rows@.take(0) =~= Seq::<StreamRow>::empty());
        assert(file_views(files@) =~= Seq::<(Seq<char>, Seq<char>)>::empty());
    }
    while k < rows.len()
        invariant
            k <= rows@.len(),
            file_views(files@) == stream_files(rows@.take(k as int)),
        decreases rows.len() - k,
    {
        let r = &rows[k];
        let src = stream_source_of(r);
        let ghost fv = file_views(files@);
        proof {
            assert(rows@.take(k + 1).drop_last() =~= rows@.take(k as int));
            assert(rows@.take(k + 1).last() == *r);
            if k > 0 {
                assert(rows@.take(k as int).last() == rows@[k - 1]);
                lemma_stream_files_nonempty(rows@.take(k as int));
            }
        }
        let same = if k > 0 {
            let prev = stream_source_of(&rows[k - 1]);
            crate::text::str_eq(prev.as_str(), src.as_str())
        } else {
            false
        };
        if same {
            let last = files.len() - 1;
            let (name, mut text) = files.remove(last);
            write_block(&mut text, r, src.as_str());
            files.push((name, text));
            proof {
                assert(file_views(files@) =~= fv.update(fv.len() - 1, (fv.last().0, fv.last().1 + stream_block(*r))));
            }
        } else {
            if files.len() > 0 {
                let last = files.len() - 1;
                let (name, mut text) = files.remove(last);
                push_str(&mut text, "\n");
                files.push((name, text));
                proof {
                    assert(file_views(files@) =~= fv.update(fv.len() - 1, (fv.last().0, fv.last().1 + "\n"@)));
                }
            }
            let ghost closed = file_views(files@);
            let mut text = String::new();
            write_block(&mut text, r, src.as_str());
            files.push((file_name_for(src.as_str()), text));
            proof {
                assert(file_views(files@) =~= closed.push((stream_file_name(stream_source(*r)), stream_block(*r))));
            }
        }
        k += 1;
    }
    proof {
        assert(rows@.take(rows@.len() as int) =~= rows@);
    }
    (files, None)
}

} // verus!
