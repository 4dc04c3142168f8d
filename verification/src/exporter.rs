//! Markdown export of the palace: one file per room (`{wing}/{room}.md`)
//! with a heading per drawer, and an `index.md` table of wings.
use vstd::prelude::*;
use crate::obsidian_export::{each_line, filename_char, join_strings};
use crate::text::{chars_of, decimal, decimal_string, join, owned, push_str, str_views, string_from_chars, trim};

verus! {

broadcast use vstd::string::group_string_axioms;

/// Counts of what an export wrote.
pub struct ExportStats {
    pub wings: usize,
    pub rooms: usize,
    pub drawers: usize,
}

/// A drawer as it is written to a room file.
pub struct ExportDrawer {
    pub id: String,
    pub content: String,
    pub source_file: Option<String>,
    pub filed_at: String,
}

/// A name made safe as a path component: characters that are illegal in
/// file names on common systems become `_`, the result is trimmed, and an
/// empty result becomes `"unknown"`.
pub open spec fn safe_path_component_spec(name: Seq<char>) -> Seq<char> {
    let t = trim(name.map_values(|c: char| filename_char(c)));
    if t.len() == 0 {
        "unknown"@
    } else {
        t
    }
}

/// Sanitize a string for use as a filesystem path component.
pub fn safe_path_component(name: &str) -> (r: String)
    ensures
        r@ == safe_path_component_spec(name@),
{
    let cs = chars_of(name);
    let mut mapped: Vec<char> = Vec::new();
    let mut i: usize = 0;
    while i < cs.len()
        invariant
            i <= cs@.len(),
            cs@ == name@,
            mapped@ == name@.take(i as int).map_values(|c: char| filename_char(c)),
        decreases cs.len() - i,
    {
        let c = cs[i];
        let m = if c == '/' || c == '\\' || c == ':' || c == '*' || c == '?' || c == '"' || c == '<'
            || c == '>' || c == '|' {
            '_'
        } else {
            c
        };
        mapped.push(m);
        proof {
            assert(name@.take(i + 1).map_values(|c: char| filename_char(c)) =~= name@.take(i as int).map_values(
                |c: char| filename_char(c),
            ).push(m));
        }
        i += 1;
    }
    proof {
        assert(name@.take(name@.len() as int) =~= name@);
    }
    let t = crate::text::trim_chars(mapped.as_slice());
    if t.len() == 0 {
        owned("unknown")
    } else {
        string_from_chars(t.as_slice())
    }
}

/// The block a drawer gets in its room file.
pub open spec fn drawer_block(d: ExportDrawer) -> Seq<char> {
    "## "@ + d.id@ + "\n"@ + "\n"@ + "> "@ + d.content@ + "\n\n"@ + "| Field | Value |\n"@
        + "|-------|-------|\n"@ + "| Source | "@ + (match d.source_file {
        Some(s) => s@,
        None => "unknown"@,
    }) + " |\n"@ + "| Filed | "@ + d.filed_at@ + " |\n"@ + "\n"@ + "---\n\n"@
}

pub open spec fn drawer_blocks(ds: Seq<ExportDrawer>) -> Seq<char>
    decreases ds.len(),
{
    if ds.len() == 0 {
        Seq::empty()
    } else {
        drawer_blocks(ds.drop_last()) + drawer_block(ds.last())
    }
}

fn render_drawer_block(d: &ExportDrawer) -> (r: String)
    ensures
        r@ == drawer_block(*d),
{
    let mut md = String::new();
        push_str(&mut md, "## ");
        push_str(&mut md, d.id.as_str());
        push_str(&mut md, "\n");
        push_str(&mut md, "\n");
        push_str(&mut md, "> ");
        push_str(&mut md, d.content.as_str());
        push_str(&mut md, "\n\n");
        push_str(&mut md, "| Field | Value |\n");
        push_str(&mut md, "|-------|-------|\n");
        push_str(&mut md, "| Source | ");
        match &d.source_file {
            Some(s) => push_str(&mut md, s.as_str()),
            None => push_str(&mut md, "unknown"),
        }
        push_str(&mut md, " |\n");
        push_str(&mut md, "| Filed | ");
        push_str(&mut md, d.filed_at.as_str());
        push_str(&mut md, " |\n");
        push_str(&mut md, "\n");
        push_str(&mut md, "---\n\n");
    proof {
        assert(md@ =~= drawer_block(*d));
    }
    md
}

/// A room file: a `# wing / room` heading, then a block per drawer with
/// its content quoted and a table of its source and filing time.
pub open spec fn room_md_spec(wing: Seq<char>, room: Seq<char>, ds: Seq<ExportDrawer>) -> Seq<char> {
    "# "@ + wing + " / "@ + room + "\n\n"@ + drawer_blocks(ds)
}

/// Render the markdown file of one room.
pub fn render_room_md(wing: &str, room: &str, drawers: &Vec<ExportDrawer>) -> (r: String)
    ensures
        r@ == room_md_spec(wing@, room@, drawers@),
{
    let mut md = owned("# ");
    push_str(&mut md, wing);
    push_str(&mut md, " / ");
    push_str(&mut md, room);
    push_str(&mut md, "\n\n");
    let ghost head = md@;
    let mut k: usize = 0;
    while k < drawers.len()
        invariant
            k <= drawers@.len(),
            md@ == head + drawer_blocks(drawers@.take(k as int)),
        decreases drawers.len() - k,
    {
        let d = &drawers[k];
        let block = render_drawer_block(d);
        push_str(&mut md, block.as_str());
        proof {
            assert(drawers@.take(k + 1).drop_last() =~= drawers@.take(k as int));
            assert(drawers@.take(k + 1).last() == *d);
            assert(md@ =~= head + drawer_blocks(drawers@.take(k + 1)));
        }
        k += 1;
    }
    proof {
        assert(drawers@.take(drawers@.len() as int) =~= drawers@);
    }
    md
}

/// One row of the index: a wing, its room count and its drawer count.
pub struct WingSummary {
    pub wing: String,
    pub rooms: usize,
    pub drawers: usize,
}

pub open spec fn index_row(w: WingSummary) -> Seq<char> {
    "| ["@ + w.wing@ + "]("@ + safe_path_component_spec(w.wing@) + "/) | "@ + decimal(w.rooms as nat)
        + " | "@ + decimal(w.drawers as nat) + " |"@
}

/// The index file: a dated heading and a table with a row per wing, lines
/// joined by newlines.
pub open spec fn index_md_spec(today: Seq<char>, wings: Seq<WingSummary>) -> Seq<char> {
    join(
        seq!["# Palace Export -- "@ + today + "\n"@, Seq::empty(), "| Wing | Rooms | Drawers |"@, "|------|-------|---------|"@]
            + wings.map_values(|w: WingSummary| index_row(w)),
        "\n"@,
    )
}

/// Render `index.md` for a day and the wings exported.
pub fn render_index_md(today: &str, wings: &Vec<WingSummary>) -> (r: String)
    ensures
        r@ == index_md_spec(today@, wings@),
{
    let mut lines: Vec<String> = Vec::new();
    let mut h = owned("# Palace Export -- ");
    push_str(&mut h, today);
    push_str(&mut h, "\n");
    lines.push(h);
    lines.push(String::new());
    lines.push(owned("| Wing | Rooms | Drawers |"));
    lines.push(owned("|------|-------|---------|"));
    let ghost head = str_views(lines@);
    proof {
        assert(head =~= seq!["# Palace Export -- "@ + today@ + "\n"@, Seq::empty(), "| Wing | Rooms | Drawers |"@, "|------|-------|---------|"@]);
    }
    let mut k: usize = 0;
    while k < wings.len()
        invariant
            k <= wings@.len(),
            str_views(lines@) == head + wings@.take(k as int).map_values(|w: WingSummary| index_row(w)),
        decreases wings.len() - k,
    {
        let w = &wings[k];
        let mut row = owned("| [");
        push_str(&mut row, w.wing.as_str());
        push_str(&mut row, "](");
        let sw = safe_path_component(w.wing.as_str());
        push_str(&mut row, sw.as_str());
        push_str(&mut row, "/) | ");
        let rs = decimal_string(w.rooms as u64);
        push_str(&mut row, rs.as_str());
        push_str(&mut row, " | ");
        let ds = decimal_string(w.drawers as u64);
        push_str(&mut row, ds.as_str());
        push_str(&mut row, " |");
        let ghost before = str_views(lines@);
        lines.push(row);
        proof {
            assert(str_views(lines@) =~= before.push(index_row(*w)));
            assert(wings@.take(k + 1).map_values(|w: WingSummary| index_row(w)) =~= wings@.take(k as int).map_values(
                |w: WingSummary| index_row(w),
            ).push(index_row(wings@[k as int])));
        }
        k += 1;
    }
    proof {
        assert(wings@.take(wings@.len() as int) =~= wings@);
    }
    join_strings(&lines, "\n")
}

/// A safe path component is never empty and holds none of the characters
/// that are illegal in file names (`/ \ : * ? " < > |`).
pub proof fn lemma_safe_path_component(name: Seq<char>)
    ensures
        safe_path_component_spec(name).len() > 0,
        forall|i: int|
            0 <= i < safe_path_component_spec(name).len() ==> #[trigger] filename_char(
                safe_path_component_spec(name)[i],
            ) == safe_path_component_spec(name)[i],
{
    let m = name.map_values(|c: char| filename_char(c));
    let t = trim(m);
    crate::text::lemma_trim_is_subrange(m);
    let (a, b) = choose|a: int, b: int| 0 <= a <= b <= m.len() && #[trigger] m.subrange(a, b) == trim(m);
    reveal_strlit("unknown");
    if t.len() > 0 {
        assert forall|i: int| 0 <= i < t.len() implies #[trigger] filename_char(t[i]) == t[i] by {
            assert(t[i] == m[a + i]);
        }
    }
}

} // verus!
