//! The Map of Content of an Obsidian export: one section per kind of note
//! (kinds in name order), each listing its notes as wiki links with their
//! date and tags.
use vstd::prelude::*;
use crate::export_groups::{first_not_below, lemma_first_not_below_at};
use crate::obsidian_export::{join_strings, sanitize_filename, sanitize_filename_spec, MocEntry};
use crate::text::{decimal, decimal_string, join, lex_lt, owned, push_str, str_eq, str_lt, str_views};

verus! {

broadcast use vstd::string::group_string_axioms;

/// The heading of a kind of note.
pub open spec fn moc_heading(t: Seq<char>) -> Seq<char> {
    if t == "memory"@ {
        "Memories"@
    } else if t == "observation"@ {
        "Observations"@
    } else if t == "lesson"@ {
        "Lessons"@
    } else if t == "crystal"@ {
        "Crystals"@
    } else if t == "session"@ {
        "Sessions"@
    } else {
        t
    }
}

pub open spec fn backticked(tags: Seq<Seq<char>>) -> Seq<Seq<char>> {
    tags.map_values(|t: Seq<char>| "`"@ + t + "`"@)
}

/// The line of a note: a wiki link to its file, showing its title and
/// date, followed by its tags in backticks.
pub open spec fn moc_line(e: MocEntry) -> Seq<char> {
    "- [["@ + sanitize_filename_spec(e.title@) + "|"@ + e.title@ + (match e.date {
        Some(d) => " ("@ + d@ + ")"@,
        None => Seq::empty(),
    }) + "]]"@ + (if e.tags@.len() == 0 {
        Seq::empty()
    } else {
        " "@ + join(backticked(str_views(e.tags@)), " "@)
    }) + "\n"@
}

/// The kinds of the entries, in name order, each once.
pub open spec fn moc_kinds(es: Seq<MocEntry>) -> Seq<Seq<char>>
    decreases es.len(),
{
    if es.len() == 0 {
        Seq::empty()
    } else {
        let ks = moc_kinds(es.drop_last());
        let t = es.last().entry_type@;
        let i = first_not_below(ks, t) as int;
        if i < ks.len() && ks[i] == t {
            ks
        } else {
            ks.insert(i, t)
        }
    }
}

/// The entries of one kind, in order.
pub open spec fn of_kind(es: Seq<MocEntry>, t: Seq<char>) -> Seq<MocEntry>
    decreases es.len(),
{
    if es.len() == 0 {
        Seq::empty()
    } else if es.last().entry_type@ == t {
        of_kind(es.drop_last(), t).push(es.last())
    } else {
        of_kind(es.drop_last(), t)
    }
}

pub open spec fn lines_of_entries(es: Seq<MocEntry>) -> Seq<char>
    decreases es.len(),
{
    if es.len() == 0 {
        Seq::empty()
    } else {
        lines_of_entries(es.drop_last()) + moc_line(es.last())
    }
}

/// A section: a heading with the count of its notes, their lines, a blank
/// line.
pub open spec fn moc_section(es: Seq<MocEntry>, t: Seq<char>) -> Seq<char> {
    "## "@ + moc_heading(t) + " ("@ + decimal(of_kind(es, t).len()) + ")\n\n"@ + lines_of_entries(of_kind(es, t)) + "\n"@
}

pub open spec fn moc_sections(es: Seq<MocEntry>, ks: Seq<Seq<char>>) -> Seq<char>
    decreases ks.len(),
{
    if ks.len() == 0 {
        Seq::empty()
    } else {
        moc_sections(es, ks.drop_last()) + moc_section(es, ks.last())
    }
}

/// The Map of Content: front matter dated `today`, a title, a note, and a
/// section per kind.
pub open spec fn moc_md(today: Seq<char>, es: Seq<MocEntry>) -> Seq<char> {
    "---\ntitle: Map of Content\ntype: moc\ndate: "@ + today + "\n---\n\n"@ + "# MemPalace Map of Content\n\n"@
        + "> Auto-generated index of all exported memories, observations, and more.\n\n"@ + moc_sections(
        es,
        moc_kinds(es),
    )
}

fn moc_line_exec(e: &MocEntry) -> (r: String)
    ensures
        r@ == moc_line(*e),
{
    let mut s = owned("- [[");
    let f = sanitize_filename(e.title.as_str());
    push_str(&mut s, f.as_str());
    push_str(&mut s, "|");
    push_str(&mut s, e.title.as_str());
    match &e.date {
        Some(d) => {
            push_str(&mut s, " (");
            push_str(&mut s, d.as_str());
            push_str(&mut s, ")");
        },
        None => {},
    }
    push_str(&mut s, "]]");
    if e.tags.len() > 0 {
        let mut ts: Vec<String> = Vec::new();
        let mut k: usize = 0;
        while k < e.tags.len()
            invariant
                k <= e.tags@.len(),
                str_views(ts@) == backticked(str_views(e.tags@)).take(k as int),
            decreases e.tags.len() - k,
        {
            let mut t = owned("`");
            push_str(&mut t, e.tags[k].as_str());
            push_str(&mut t, "`");
            let ghost t0 = ts@;
            ts.push(t);
            proof {
                assert(str_views(ts@) =~= str_views(t0).push("`"@ + e.tags@[k as int]@ + "`"@));
                assert(str_views(ts@) =~= backticked(str_views(e.tags@)).take(k + 1));
            }
            k += 1;
        }
        proof {
            assert(backticked(str_views(e.tags@)).take(e.tags@.len() as int) =~= backticked(str_views(e.tags@)));
        }
        push_str(&mut s, " ");
        let j = join_strings(&ts, " ");
        push_str(&mut s, j.as_str());
    }
    push_str(&mut s, "\n");
    s
}

fn insert_kind(ks: &mut Vec<String>, t: &str)
    ensures
        str_views(final(ks)@) == ({
            let names = str_views(old(ks)@);
            let i = first_not_below(names, t@) as int;
            if i < names.len() && names[i] == t@ {
                names
            } else {
                names.insert(i, t@)
            }
        }),
{
    let ghost names = str_views(ks@);
    let mut k: usize = 0;
    let mut stop = false;
    while k < ks.len() && !stop
        invariant
            k <= ks@.len(),
            names == str_views(ks@),
            forall|j: int| 0 <= j < k ==> lex_lt(#[trigger] names[j], t@),
            stop ==> k < ks@.len() && !lex_lt(names[k as int], t@),
        decreases ks@.len() - k + (if stop { 0int } else { 1int }),
    {
        if str_lt(ks[k].as_str(), t) {
            k += 1;
        } else {
            stop = true;
        }
    }
    proof {
        lemma_first_not_below_at(names, t@, k as int);
    }
    if k < ks.len() && str_eq(ks[k].as_str(), t) {
    } else {
        ks.insert(k, owned(t));
        proof {
            assert(str_views(ks@) =~= names.insert(k as int, t@));
        }
    }
}

fn section_exec(es: &Vec<MocEntry>, t: &str) -> (r: String)
    ensures
        r@ == moc_section(es@, t@),
{
    let mut count: usize = 0;
    let mut lines = String::new();
    let mut k: usize = 0;
    proof {
        assert(es@.take(0) =~= Seq::<MocEntry>::empty());
    }
    while k < es.len()
        invariant
            k <= es@.len(),
            count == of_kind(es@.take(k as int), t@).len(),
            count <= k,
            lines@ == lines_of_entries(of_kind(es@.take(k as int), t@)),
        decreases es.len() - k,
    {
        proof {
            assert(es@.take(k + 1).drop_last() =~= es@.take(k as int));
            assert(es@.take(k + 1).last() == es@[k as int]);
        }
        if str_eq(es[k].entry_type.as_str(), t) {
            let l = moc_line_exec(&es[k]);
            push_str(&mut lines, l.as_str());
            proof {
                let o = of_kind(es@.take(k as int), t@);
                assert(o.push(es@[k as int]).drop_last() =~= o);
                assert(of_kind(es@.take(k + 1), t@) == o.push(es@[k as int]));
            }
            count += 1;
        }
        k += 1;
    }
    proof {
        assert(es@.take(es@.len() as int) =~= es@);
    }
    let mut s = owned("## ");
    let h: &str = if str_eq(t, "memory") {
        "Memories"
    } else if str_eq(t, "observation") {
        "Observations"
    } else if str_eq(t, "lesson") {
        "Lessons"
    } else if str_eq(t, "crystal") {
        "Crystals"
    } else if str_eq(t, "session") {
        "Sessions"
    } else {
        t
    };
    push_str(&mut s, h);
    push_str(&mut s, " (");
    let d = decimal_string(count as u64);
    push_str(&mut s, d.as_str());
    push_str(&mut s, ")\n\n");
    push_str(&mut s, lines.as_str());
    push_str(&mut s, "\n");
    s
}

/// Render the Map of Content of the exported notes, dated `today`.
pub fn render_moc(entries: &Vec<MocEntry>, today: &str) -> (r: String)
    ensures
        r@ == moc_md(today@, entries@),
{
    let mut kinds: Vec<String> = Vec::new();
    let mut k: usize = 0;
    proof {
        assert(entries@.take(0) =~= Seq::<MocEntry>::empty());
        assert(str_views(kinds@) =~= Seq::<Seq<char>>::empty());
    }
    while k < entries.len()
        invariant
            k <= entries@.len(),
            str_views(kinds@) == moc_kinds(entries@.take(k as int)),
        decreases entries.len() - k,
    {
        proof {
            assert(entries@.take(k + 1).drop_last() =~= entries@.take(k as int));
            assert(entries@.take(k + 1).last() == entries@[k as int]);
        }
        insert_kind(&mut kinds, entries[k].entry_type.as_str());
        k += 1;
    }
    proof {
        assert(entries@.take(entries@.len() as int) =~= entries@);
    }
    let mut md = owned("---\ntitle: Map of Content\ntype: moc\ndate: ");
    push_str(&mut md, today);
    push_str(&mut md, "\n---\n\n");
    push_str(&mut md, "# MemPalace Map of Content\n\n");
    push_str(&mut md, "> Auto-generated index of all exported memories, observations, and more.\n\n");
    let ghost head = md@;
    let ghost ks = str_views(kinds@);
    let mut j: usize = 0;
    proof {
        assert(ks.take(0) =~= Seq::<Seq<char>>::empty());
    }
    while j < kinds.len()
        invariant
            j <= kinds@.len(),
            ks == str_views(kinds@),
            md@ == head + moc_sections(entries@, ks.take(j as int)),
        decreases kinds.len() - j,
    {
        proof {
            assert(ks.take(j + 1).drop_last() =~= ks.take(j as int));
            assert(ks.take(j + 1).last() == kinds@[j as int]@);
        }
        let sec = section_exec(entries, kinds[j].as_str());
        push_str(&mut md, sec.as_str());
        j += 1;
    }
    proof {
        assert(ks.take(ks.len() as int) =~= ks);
    }
    md
}

} // verus!
