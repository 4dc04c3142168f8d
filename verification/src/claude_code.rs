//! agent-CLI session logs (JSONL): user and assistant turns, tool calls
//! summarised in one line each, tool results folded into the assistant
//! turn they answer, and the hook chatter of the CLI stripped away.
use vstd::prelude::*;
use crate::json::{
    as_array, as_object, as_str, get, get_either, json_as_array, json_as_object, json_as_str, json_get,
    json_get_either, json_text, to_json_text, Json,
};
use crate::normalize::{msg_views, push_msg, transcript_if_two, transcript_if_two_exec, MessageView};
use crate::obsidian_export::join_strings;
use crate::text::{
    byte_len, chars_of, decimal, decimal_string, join, lines, lines_of, owned, push_str, safe_truncate,
    safe_truncate_spec, str_eq, str_len, str_views, string_from_chars, trim, trim_str,
};

verus! {

broadcast use vstd::string::group_string_axioms;

// ---------------------------------------------------------------------------
// Regular expressions (the `regex` crate)
// ---------------------------------------------------------------------------

/// The characters that `regex::escape` puts a backslash before: those
/// with a meaning in a regular expression.
pub open spec fn is_regex_meta(c: char) -> bool {
    c == '\\' || c == '.' || c == '+' || c == '*' || c == '?' || c == '(' || c == ')' || c == '|' || c == '['
        || c == ']' || c == '{' || c == '}' || c == '^' || c == '$' || c == '#' || c == '&' || c == '-' || c == '~'
}

/// What `regex::escape` gives for a string: each character in turn, with a
/// backslash before each metacharacter.
pub open spec fn regex_escaped(s: Seq<char>) -> Seq<char>
    decreases s.len(),
{
    if s.len() == 0 {
        seq![]
    } else {
        let c = s.last();
        regex_escaped(s.drop_last()) + if is_regex_meta(c) {
            seq!['\\', c]
        } else {
            seq![c]
        }
    }
}

/// What `Regex::new(pattern)` then `replace_all(text, replacement)` gives:
/// `None` when the pattern does not compile.
pub uninterp spec fn regex_replaced(pattern: Seq<char>, text: Seq<char>, replacement: Seq<char>) -> Option<
    Seq<char>,
>;

/// `regex::escape`: the string with a backslash before every regex
/// metacharacter, as [`regex_escaped`] spells out.
#[verifier::external_body]
pub(crate) fn escape_regex(s: &str) -> (r: String)
    ensures
        r@ == regex_escaped(s@),
{
    regex::escape(s)
}

/// `regex::Regex::new(pattern)`, then `replace_all(text, replacement)` on
/// success.  The result is named [`regex_replaced`]; `None` stands for the
/// pattern's compile error.
#[verifier::external_body]
fn regex_replace_all(pattern: &str, text: &str, replacement: &str) -> (r: Option<String>)
    ensures
        match r {
            Some(t) => regex_replaced(pattern@, text@, replacement@) == Some(t@),
            None => regex_replaced(pattern@, text@, replacement@) is None,
        },
{
    match regex::Regex::new(pattern) {
        Ok(re) => Some(re.replace_all(text, replacement).to_string()),
        Err(_) => None,
    }
}

// ---------------------------------------------------------------------------
// Noise
// ---------------------------------------------------------------------------

/// A replacement applied when its pattern compiles.
pub open spec fn apply_re(text: Seq<char>, pattern: Seq<char>, replacement: Seq<char>) -> Seq<char> {
    match regex_replaced(pattern, text, replacement) {
        Some(t) => t,
        None => text,
    }
}

/// A line that holds nothing but the tag.
pub open spec fn tag_line(tag: Seq<char>) -> Seq<char> {
    "(?m)^[\\s]*"@ + regex_escaped(tag) + "[\\s]*$"@
}

/// A line that starts with the prefix.
pub open spec fn prefix_line(prefix: Seq<char>) -> Seq<char> {
    "(?m)^[\\s]*"@ + regex_escaped(prefix) + ".*$"@
}

pub open spec fn noise_tags() -> Seq<Seq<char>> {
    seq![
        "system-reminder"@,
        "command-message"@,
        "command-name"@,
        "task-notification"@,
        "user-prompt-submit-hook"@,
        "hook_output"@,
    ]
}

pub open spec fn noise_prefixes() -> Seq<Seq<char>> {
    seq![
        "CURRENT TIME:"@,
        "VERIFIED FACTS"@,
        "AGENT SPECIALIZATION:"@,
        "Checking verified facts..."@,
        "Injecting timestamp..."@,
        "Starting background pipeline..."@,
        "Checking emotional weights..."@,
        "Auto-save reminder..."@,
        "Checking pipeline..."@,
        "MemPalace auto-save checkpoint."@,
    ]
}

pub open spec fn hook_runs_pattern() -> Seq<char> {
    "(?m)^(?:> )?Ran \\d+ (?:Stop|PreCompact|PreToolUse|PostToolUse|UserPromptSubmit|Notification|SessionStart|SessionEnd) hook[s]?.*$"@
}

/// The patterns whose matches are removed, in order: tag lines, hook
/// runs, prefixed lines, folded-line markers, token counters, bare
/// `hook_output` lines.
pub open spec fn noise_patterns() -> Seq<Seq<char>> {
    noise_tags().map_values(|t: Seq<char>| tag_line(t)) + seq![hook_runs_pattern()] + noise_prefixes().map_values(
        |p: Seq<char>| prefix_line(p),
    ) + seq![
        "(?m)^\\s*… \\+\\d+ lines\\s*$"@,
        "\\s*\\[(\\d+)\\s+tokens?\\]\\s+\\(ctrl\\+o to (?:open|expand)\\)"@,
        "(?m)^\\s*hook_output\\s*$"@,
    ]
}

pub open spec fn remove_all(text: Seq<char>, patterns: Seq<Seq<char>>) -> Seq<char>
    decreases patterns.len(),
{
    if patterns.len() == 0 {
        text
    } else {
        apply_re(remove_all(text, patterns.drop_last()), patterns.last(), Seq::empty())
    }
}

/// The text with the CLI's noise removed, runs of blank lines collapsed
/// and the ends trimmed.
pub open spec fn strip_noise_spec(text: Seq<char>) -> Seq<char> {
    trim(apply_re(remove_all(text, noise_patterns()), "\\n{3,}"@, "\n\n"@))
}

fn apply_re_exec(text: String, pattern: &str, replacement: &str) -> (r: String)
    ensures
        r@ == apply_re(text@, pattern@, replacement@),
{
    match regex_replace_all(pattern, text.as_str(), replacement) {
        Some(t) => t,
        None => text,
    }
}

fn noise_patterns_exec() -> (r: Vec<String>)
    ensures
        str_views(r@) == noise_patterns(),
{
    let mut v: Vec<String> = Vec::new();
    let tags = ["system-reminder", "command-message", "command-name", "task-notification", "user-prompt-submit-hook", "hook_output"];
    let prefixes = [
        "CURRENT TIME:",
        "VERIFIED FACTS",
        "AGENT SPECIALIZATION:",
        "Checking verified facts...",
        "Injecting timestamp...",
        "Starting background pipeline...",
        "Checking emotional weights...",
        "Auto-save reminder...",
        "Checking pipeline...",
        "MemPalace auto-save checkpoint.",
    ];
    let mut k: usize = 0;
    while k < 6
        invariant
            k <= 6,
            tags@ == seq![
                "system-reminder",
                "command-message",
                "command-name",
                "task-notification",
                "user-prompt-submit-hook",
                "hook_output",
            ],
            str_views(v@) == noise_tags().take(k as int).map_values(|t: Seq<char>| tag_line(t)),
        decreases 6 - k,
    {
        let mut p = owned("(?m)^[\\s]*");
        let e = escape_regex(tags[k]);
        push_str(&mut p, e.as_str());
        push_str(&mut p, "[\\s]*$");
        let ghost before = v@;
        v.push(p);
        proof {
            assert(tags@[k as int]@ == noise_tags()[k as int]);
            assert(p@ == tag_line(noise_tags()[k as int]));
            assert(str_views(v@) =~= str_views(before).push(p@));
            assert(noise_tags().take(k + 1) =~= noise_tags().take(k as int).push(noise_tags()[k as int]));
            assert(str_views(v@) =~= noise_tags().take(k + 1).map_values(|t: Seq<char>| tag_line(t)));
        }
        k += 1;
    }
    proof {
        assert(noise_tags().take(6) =~= noise_tags());
    }
    let ghost after_tags = v@;
    v.push(
        owned(
            "(?m)^(?:> )?Ran \\d+ (?:Stop|PreCompact|PreToolUse|PostToolUse|UserPromptSubmit|Notification|SessionStart|SessionEnd) hook[s]?.*$",
        ),
    );
    proof {
        assert(str_views(v@) =~= str_views(after_tags) + seq![hook_runs_pattern()]);
    }
    let ghost head = str_views(v@);
    let mut k: usize = 0;
    while k < 10
        invariant
            k <= 10,
            prefixes@ == seq![
                "CURRENT TIME:",
                "VERIFIED FACTS",
                "AGENT SPECIALIZATION:",
                "Checking verified facts...",
                "Injecting timestamp...",
                "Starting background pipeline...",
                "Checking emotional weights...",
                "Auto-save reminder...",
                "Checking pipeline...",
                "MemPalace auto-save checkpoint.",
            ],
            str_views(v@) == head + noise_prefixes().take(k as int).map_values(|p: Seq<char>| prefix_line(p)),
        decreases 10 - k,
    {
        let mut p = owned("(?m)^[\\s]*");
        let e = escape_regex(prefixes[k]);
        push_str(&mut p, e.as_str());
        push_str(&mut p, ".*$");
        let ghost before = v@;
        v.push(p);
        proof {
            assert(prefixes@[k as int]@ == noise_prefixes()[k as int]);
            assert(p@ == prefix_line(noise_prefixes()[k as int]));
            assert(str_views(v@) =~= str_views(before).push(p@));
            assert(noise_prefixes().take(k + 1) =~= noise_prefixes().take(k as int).push(noise_prefixes()[k as int]));
            assert(str_views(v@) =~= head + noise_prefixes().take(k + 1).map_values(|p: Seq<char>| prefix_line(p)));
        }
        k += 1;
    }
    proof {
        assert(noise_prefixes().take(10) =~= noise_prefixes());
    }
    let ghost mid = str_views(v@);
    v.push(owned("(?m)^\\s*… \\+\\d+ lines\\s*$"));
    v.push(owned("\\s*\\[(\\d+)\\s+tokens?\\]\\s+\\(ctrl\\+o to (?:open|expand)\\)"));
    v.push(owned("(?m)^\\s*hook_output\\s*$"));
    proof {
        assert(str_views(v@) =~= noise_patterns());
    }
    v
}

/// Remove the CLI's noise from a message text.
pub fn strip_noise(text: &str) -> (r: String)
    ensures
        r@ == strip_noise_spec(text@),
{
    let pats = noise_patterns_exec();
    let ghost pv = str_views(pats@);
    let mut t = owned(text);
    let mut k: usize = 0;
    proof {
        assert(pv.take(0) =~= Seq::<Seq<char>>::empty());
    }
    while k < pats.len()
        invariant
            k <= pats@.len(),
            pv == str_views(pats@),
            pv == noise_patterns(),
            t@ == remove_all(text@, pv.take(k as int)),
        decreases pats.len() - k,
    {
        proof {
            assert(pv.take(k + 1).drop_last() =~= pv.take(k as int));
            assert(pv.take(k + 1).last() == pats@[k as int]@);
            reveal_strlit("");
            assert(""@ =~= Seq::<char>::empty());
        }
        t = apply_re_exec(t, pats[k].as_str(), "");
        k += 1;
    }
    proof {
        assert(pv.take(pv.len() as int) =~= pv);
    }
    let t = apply_re_exec(t, "\\n{3,}", "\n\n");
    trim_str(t.as_str())
}

// ---------------------------------------------------------------------------
// Tool calls and their results
// ---------------------------------------------------------------------------

/// The string a member holds, else a default.
pub open spec fn str_or(j: Option<Json>, d: Seq<char>) -> Seq<char> {
    match as_str(j) {
        Some(s) => s,
        None => d,
    }
}

/// The string under the first present of two keys of the arguments; empty
/// when there are no arguments or it is not a string.
pub open spec fn arg_str(args: Option<Json>, k1: Seq<char>, k2: Seq<char>) -> Seq<char> {
    match args {
        Some(a) => str_or(get_either(a, k1, k2), Seq::empty()),
        None => Seq::empty(),
    }
}

/// A number that is a non-negative integer in range of `u64` (what
/// `Value::as_u64` accepts: the digits of an unsigned integer).
pub open spec fn json_u64(j: Option<Json>) -> Option<nat> {
    match j {
        Some(Json::Number(n)) => if n@.len() > 0 && n@[0] == '+' {
            None
        } else {
            crate::http_transport::parse_unsigned(n@, u64::MAX as nat)
        },
        _ => None,
    }
}

pub open spec fn arg_u64(args: Option<Json>, k: Seq<char>) -> Option<nat> {
    match args {
        Some(a) => json_u64(get(a, k)),
        None => None,
    }
}

/// Text cut to 200 bytes with an ellipsis when longer.
pub open spec fn cut200(s: Seq<char>) -> Seq<char> {
    if byte_len(s) > 200 {
        safe_truncate_spec(s, 200) + "..."@
    } else {
        s
    }
}

/// A tool call in one line: the command of `Bash`, the file (and range)
/// of `Read`, the pattern and target of `Grep`/`Glob`, the file of
/// `Edit`/`Write`, the compact arguments of any other tool.
pub open spec fn tool_use_line(content: Json) -> Seq<char> {
    if !(content is Object) {
        Seq::empty()
    } else {
        let name = str_or(get(content, "name"@), "Unknown"@);
        let args = as_object(get_either(content, "arguments"@, "input"@));
        if name == "Bash"@ {
            "[Bash] "@ + cut200(arg_str(args, "command"@, "cmd"@))
        } else if name == "Read"@ {
            let path = arg_str(args, "file_path"@, "path"@);
            match (arg_u64(args, "offset"@), arg_u64(args, "limit"@)) {
                (Some(o), Some(l)) => {
                    let end = if o + l > u64::MAX {
                        u64::MAX as nat
                    } else {
                        o + l
                    };
                    "[Read "@ + path + ":"@ + decimal(o) + "-"@ + decimal(end) + "]"@
                },
                _ => "[Read "@ + path + "]"@,
            }
        } else if name == "Grep"@ || name == "Glob"@ {
            "["@ + name + "] "@ + arg_str(args, "pattern"@, "pattern"@) + " in "@ + arg_str(
                args,
                "target"@,
                "file_path"@,
            )
        } else if name == "Edit"@ || name == "Write"@ {
            "["@ + name + "] "@ + arg_str(args, "file_path"@, "path"@)
        } else {
            "["@ + name + "] "@ + cut200(
                match args {
                    Some(a) => json_text(a),
                    None => Seq::empty(),
                },
            )
        }
    }
}

/// `→ text`, or nothing for an empty text.
pub open spec fn arrow(text: Seq<char>) -> Seq<char> {
    if text.len() == 0 {
        Seq::empty()
    } else {
        "→ "@ + text
    }
}

/// A tool result: nothing for `Read`, `Edit` and `Write`; `Bash` output
/// beyond 40 lines keeps its first and last 20; `Grep`/`Glob` output keeps
/// its first 20 lines; other output is cut to 2048 bytes.
pub open spec fn tool_result_line(content: Json, tool: Option<Seq<char>>) -> Seq<char> {
    if !(content is Object) {
        Seq::empty()
    } else {
        let text = str_or(get(content, "content"@), Seq::empty());
        let ls = lines(text);
        let n = ls.len();
        if tool == Some("Read"@) || tool == Some("Edit"@) || tool == Some("Write"@) {
            Seq::empty()
        } else if tool == Some("Bash"@) {
            if n <= 20 {
                arrow(text)
            } else if n <= 40 {
                "→ "@ + text
            } else {
                "→ "@ + join(ls.take(20), "\n"@) + "\n… ["@ + decimal((n - 40) as nat) + " lines truncated] …\n"@
                    + join(ls.skip(n - 20), "\n"@)
            }
        } else if tool == Some("Grep"@) || tool == Some("Glob"@) {
            if n <= 20 {
                arrow(text)
            } else {
                "→ "@ + join(ls.take(20), "\n"@) + "\n… ["@ + decimal((n - 20) as nat) + " matches truncated] …"@
            }
        } else if byte_len(text) > 2048 {
            "→ "@ + safe_truncate_spec(text, 2048)
        } else {
            arrow(text)
        }
    }
}

fn str_or_exec<'a>(j: Option<&'a Json>, d: &'a str) -> (r: &'a str)
    ensures
        r@ == str_or(crate::json::opt_deref(j), d@),
{
    match json_as_str(j) {
        Some(s) => s,
        None => d,
    }
}

fn arg_str_exec<'a>(args: Option<&'a Json>, k1: &str, k2: &str) -> (r: &'a str)
    ensures
        r@ == arg_str(crate::json::opt_deref(args), k1@, k2@),
{
    proof {
        reveal_strlit("");
        assert(""@ =~= Seq::<char>::empty());
    }
    match args {
        Some(a) => match json_as_str(json_get_either(a, k1, k2)) {
            Some(s) => s,
            None => "",
        },
        None => "",
    }
}

fn json_u64_exec(j: Option<&Json>) -> (r: Option<u64>)
    ensures
        match r {
            Some(v) => json_u64(crate::json::opt_deref(j)) == Some(v as nat),
            None => json_u64(crate::json::opt_deref(j)) is None,
        },
{
    match j {
        Some(Json::Number(n)) => {
            let cs = chars_of(n.as_str());
            if cs.len() > 0 && cs[0] == '+' {
                None
            } else {
                crate::http_transport::parse_unsigned_exec(n.as_str(), u64::MAX)
            }
        },
        _ => None,
    }
}

fn cut200_exec(s: &str) -> (r: String)
    ensures
        r@ == cut200(s@),
{
    if str_len(s) > 200 {
        let mut t = safe_truncate(s, 200);
        push_str(&mut t, "...");
        t
    } else {
        owned(s)
    }
}

/// Summarise a tool call in one line.
pub fn format_tool_use(content: &Json) -> (r: String)
    ensures
        r@ == tool_use_line(*content),
{
    match content {
        Json::Object(_) => {},
        _ => {
            return String::new();
        },
    }
    let name = str_or_exec(json_get(content, "name"), "Unknown");
    let args = json_as_object(json_get_either(content, "arguments", "input"));
    if str_eq(name, "Bash") {
        let mut r = owned("[Bash] ");
        let c = cut200_exec(arg_str_exec(args, "command", "cmd"));
        push_str(&mut r, c.as_str());
        r
    } else if str_eq(name, "Read") {
        let path = arg_str_exec(args, "file_path", "path");
        let off = match args {
            Some(a) => json_u64_exec(json_get(a, "offset")),
            None => None,
        };
        let lim = match args {
            Some(a) => json_u64_exec(json_get(a, "limit")),
            None => None,
        };
        let mut r = owned("[Read ");
        push_str(&mut r, path);
        match (off, lim) {
            (Some(o), Some(l)) => {
                let end = o.saturating_add(l);
                push_str(&mut r, ":");
                let a = decimal_string(o);
                push_str(&mut r, a.as_str());
                push_str(&mut r, "-");
                let b = decimal_string(end);
                push_str(&mut r, b.as_str());
                push_str(&mut r, "]");
            },
            _ => {
                push_str(&mut r, "]");
            },
        }
        r
    } else if str_eq(name, "Grep") || str_eq(name, "Glob") {
        let mut r = owned("[");
        push_str(&mut r, name);
        push_str(&mut r, "] ");
        push_str(&mut r, arg_str_exec(args, "pattern", "pattern"));
        push_str(&mut r, " in ");
        push_str(&mut r, arg_str_exec(args, "target", "file_path"));
        r
    } else if str_eq(name, "Edit") || str_eq(name, "Write") {
        let mut r = owned("[");
        push_str(&mut r, name);
        push_str(&mut r, "] ");
        push_str(&mut r, arg_str_exec(args, "file_path", "path"));
        r
    } else {
        let args_str = match args {
            Some(a) => to_json_text(a),
            None => String::new(),
        };
        let mut r = owned("[");
        push_str(&mut r, name);
        push_str(&mut r, "] ");
        let c = cut200_exec(args_str.as_str());
        push_str(&mut r, c.as_str());
        r
    }
}

fn lines_strings(cs: &[char]) -> (r: Vec<String>)
    ensures
        str_views(r@) == lines(cs@),
{
    let ls = lines_of(cs);
    let mut r: Vec<String> = Vec::new();
    let mut k: usize = 0;
    while k < ls.len()
        invariant
            k <= ls@.len(),
            ls@.len() == lines(cs@).len(),
            forall|i: int| 0 <= i < ls@.len() ==> #[trigger] ls@[i]@ == lines(cs@)[i],
            str_views(r@) == lines(cs@).take(k as int),
        decreases ls.len() - k,
    {
        let ghost before = r@;
        r.push(string_from_chars(ls[k].as_slice()));
        proof {
            assert(str_views(r@) =~= str_views(before).push(lines(cs@)[k as int]));
            assert(str_views(r@) =~= lines(cs@).take(k + 1));
        }
        k += 1;
    }
    proof {
        assert(lines(cs@).take(ls@.len() as int) =~= lines(cs@));
    }
    r
}

fn slice_strings(v: &Vec<String>, from: usize, to: usize) -> (r: Vec<String>)
    requires
        from <= to <= v@.len(),
    ensures
        str_views(r@) == str_views(v@).subrange(from as int, to as int),
{
    let mut r: Vec<String> = Vec::new();
    let mut k = from;
    while k < to
        invariant
            from <= k <= to <= v@.len(),
            str_views(r@) == str_views(v@).subrange(from as int, k as int),
        decreases to - k,
    {
        let ghost before = r@;
        r.push(owned(v[k].as_str()));
        proof {
            assert(str_views(r@) =~= str_views(before).push(v@[k as int]@));
            assert(str_views(r@) =~= str_views(v@).subrange(from as int, k + 1));
        }
        k += 1;
    }
    r
}

fn arrow_exec(text: &str) -> (r: String)
    ensures
        r@ == arrow(text@),
{
    if text.is_empty() {
        String::new()
    } else {
        let mut r = owned("→ ");
        push_str(&mut r, text);
        r
    }
}

/// Summarise a tool result; `tool_name` is the tool the call named.
pub fn format_tool_result(content: &Json, tool_name: Option<&str>) -> (r: String)
    ensures
        r@ == tool_result_line(
            *content,
            match tool_name {
                Some(t) => Some(t@),
                None => None,
            },
        ),
{
    match content {
        Json::Object(_) => {},
        _ => {
            return String::new();
        },
    }
    let ghost tool = match tool_name {
        Some(t) => Some(t@),
        None => None::<Seq<char>>,
    };
    proof {
        reveal_strlit("");
        assert(""@ =~= Seq::<char>::empty());
    }
    let text = str_or_exec(json_get(content, "content"), "");
    let (is_rew, is_bash, is_grep) = match tool_name {
        Some(t) => (
            str_eq(t, "Read") || str_eq(t, "Edit") || str_eq(t, "Write"),
            str_eq(t, "Bash"),
            str_eq(t, "Grep") || str_eq(t, "Glob"),
        ),
        None => (false, false, false),
    };
    assert(is_rew == (tool == Some("Read"@) || tool == Some("Edit"@) || tool == Some("Write"@)));
    assert(is_bash == (tool == Some("Bash"@)));
    assert(is_grep == (tool == Some("Grep"@) || tool == Some("Glob"@)));
    if is_rew {
        return String::new();
    }
    if is_bash || is_grep {
        let cs = chars_of(text);
        let ls = lines_strings(cs.as_slice());
        let n = ls.len();
        if n <= 20 {
            return arrow_exec(text);
        }
        if is_bash && n <= 40 {
            let mut r = owned("→ ");
            push_str(&mut r, text);
            return r;
        }
        let head = slice_strings(&ls, 0, 20);
        proof {
            assert(str_views(ls@).subrange(0, 20) =~= lines(text@).take(20));
        }
        let mut r = owned("→ ");
        let h = join_strings(&head, "\n");
        push_str(&mut r, h.as_str());
        push_str(&mut r, "\n… [");
        if is_bash {
            let d = decimal_string((n - 40) as u64);
            push_str(&mut r, d.as_str());
            push_str(&mut r, " lines truncated] …\n");
            let tail = slice_strings(&ls, n - 20, n);
            proof {
                assert(str_views(ls@).subrange(n - 20, n as int) =~= lines(text@).skip(n - 20));
            }
            let t = join_strings(&tail, "\n");
            push_str(&mut r, t.as_str());
        } else {
            let d = decimal_string((n - 20) as u64);
            push_str(&mut r, d.as_str());
            push_str(&mut r, " matches truncated] …");
        }
        return r;
    }
    if str_len(text) > 2048 {
        let mut r = owned("→ ");
        let t = safe_truncate(text, 2048);
        push_str(&mut r, t.as_str());
        r
    } else {
        arrow_exec(text)
    }
}

// ---------------------------------------------------------------------------
// Message text
// ---------------------------------------------------------------------------

/// Tool calls seen so far: id and tool name, in order of appearance.
pub type ToolMap = Seq<(Seq<char>, Seq<char>)>;

/// The tool most recently recorded under an id.
pub open spec fn tool_name_of(m: ToolMap, id: Seq<char>) -> Option<Seq<char>>
    decreases m.len(),
{
    if m.len() == 0 {
        None
    } else if m.last().0 == id {
        Some(m.last().1)
    } else {
        tool_name_of(m.drop_last(), id)
    }
}

/// The `tool_use` blocks of an assistant content array: their `id` (empty
/// when missing) and `name` (`Unknown` when missing).
pub open spec fn tool_uses(items: Seq<Json>) -> ToolMap
    decreases items.len(),
{
    if items.len() == 0 {
        Seq::empty()
    } else {
        let p = tool_uses(items.drop_last());
        let b = items.last();
        if b is Object && as_str(get(b, "type"@)) == Some("tool_use"@) {
            p.push((str_or(get(b, "id"@), Seq::empty()), str_or(get(b, "name"@), "Unknown"@)))
        } else {
            p
        }
    }
}

/// What one block of an assistant content contributes: trimmed text, a
/// tool call or a tool result in one line; thinking and other blocks
/// nothing.
pub open spec fn assistant_part(item: Json, m: ToolMap) -> Option<Seq<char>> {
    if !(item is Object) {
        None
    } else {
        let ty = str_or(get(item, "type"@), Seq::empty());
        let part = if ty == "text"@ {
            match as_str(get(item, "text"@)) {
                Some(t) => trim(t),
                None => Seq::empty(),
            }
        } else if ty == "tool_use"@ {
            tool_use_line(item)
        } else if ty == "tool_result"@ {
            tool_result_line(item, tool_name_of(m, str_or(get(item, "tool_use_id"@), Seq::empty())))
        } else {
            Seq::empty()
        };
        if part.len() > 0 {
            Some(part)
        } else {
            None
        }
    }
}

pub open spec fn assistant_parts(items: Seq<Json>, m: ToolMap) -> Seq<Seq<char>>
    decreases items.len(),
{
    if items.len() == 0 {
        Seq::empty()
    } else {
        match assistant_part(items.last(), m) {
            Some(p) => assistant_parts(items.drop_last(), m).push(p),
            None => assistant_parts(items.drop_last(), m),
        }
    }
}

/// The text of an assistant message content.
pub open spec fn assistant_text(content: Json, m: ToolMap) -> Seq<char> {
    match content {
        Json::Str(s) => trim(s@),
        Json::Array(v) => join(assistant_parts(v@, m), " "@),
        Json::Object(_) => trim(str_or(get(content, "text"@), Seq::empty())),
        _ => Seq::empty(),
    }
}

/// Reading a user content array: the parts, whether a tool result was
/// seen, whether user text was seen.
pub open spec fn user_fold(items: Seq<Json>, m: ToolMap) -> (Seq<Seq<char>>, bool, bool)
    decreases items.len(),
{
    if items.len() == 0 {
        (Seq::empty(), false, false)
    } else {
        let st = user_fold(items.drop_last(), m);
        let item = items.last();
        if !(item is Object) {
            st
        } else {
            let ty = str_or(get(item, "type"@), Seq::empty());
            if ty == "text"@ {
                match as_str(get(item, "text"@)) {
                    Some(t) => if trim(t).len() > 0 {
                        (st.0.push(trim(t)), st.1, true)
                    } else {
                        st
                    },
                    None => st,
                }
            } else if ty == "tool_result"@ {
                let f = tool_result_line(item, tool_name_of(m, str_or(get(item, "tool_use_id"@), Seq::empty())));
                (
                    if f.len() > 0 {
                        st.0.push(f)
                    } else {
                        st.0
                    },
                    true,
                    st.2,
                )
            } else {
                st
            }
        }
    }
}

/// The text of a user message content, and whether it holds nothing but
/// tool results.
pub open spec fn user_text(content: Json, m: ToolMap) -> (Seq<char>, bool) {
    match content {
        Json::Str(s) => (trim(s@), false),
        Json::Array(v) => {
            let st = user_fold(v@, m);
            (join(st.0, " "@), st.1 && !st.2)
        },
        _ => (Seq::empty(), false),
    }
}

pub open spec fn tool_map_views(v: Seq<(String, String)>) -> ToolMap {
    v.map_values(|p: (String, String)| (p.0@, p.1@))
}

fn tool_lookup<'a>(m: &'a Vec<(String, String)>, id: &str) -> (r: Option<&'a str>)
    ensures
        match r {
            Some(t) => tool_name_of(tool_map_views(m@), id@) == Some(t@),
            None => tool_name_of(tool_map_views(m@), id@) is None,
        },
{
    let ghost mv = tool_map_views(m@);
    let mut k = m.len();
    proof {
        assert(mv.take(k as int) =~= mv);
    }
    while k > 0
        invariant
            k <= m@.len(),
            mv == tool_map_views(m@),
            tool_name_of(mv, id@) == tool_name_of(mv.take(k as int), id@),
        decreases k,
    {
        proof {
            assert(mv.take(k as int).drop_last() =~= mv.take(k - 1));
            assert(mv.take(k as int).last() == (m@[k - 1].0@, m@[k - 1].1@));
        }
        if str_eq(m[k - 1].0.as_str(), id) {
            return Some(m[k - 1].1.as_str());
        }
        k -= 1;
    }
    proof {
        assert(mv.take(0) =~= Seq::<(Seq<char>, Seq<char>)>::empty());
    }
    None
}

fn record_tool_uses(m: &mut Vec<(String, String)>, items: &Vec<Json>)
    ensures
        tool_map_views(final(m)@) == tool_map_views(old(m)@) + tool_uses(items@),
{
    let ghost start = tool_map_views(m@);
    let mut k: usize = 0;
    proof {
        assert(items@.take(0) =~= Seq::<Json>::empty());
        assert(start + tool_uses(Seq::<Json>::empty()) =~= start);
    }
    while k < items.len()
        invariant
            k <= items@.len(),
            tool_map_views(m@) == start + tool_uses(items@.take(k as int)),
        decreases items.len() - k,
    {
        proof {
            assert(items@.take(k + 1).drop_last() =~= items@.take(k as int));
            assert(items@.take(k + 1).last() == items@[k as int]);
            reveal_strlit("");
            assert(""@ =~= Seq::<char>::empty());
        }
        let b = &items[k];
        let is_use = match b {
            Json::Object(_) => match json_as_str(json_get(b, "type")) {
                Some(t) => str_eq(t, "tool_use"),
                None => false,
            },
            _ => false,
        };
        if is_use {
            let id = str_or_exec(json_get(b, "id"), "");
            let name = str_or_exec(json_get(b, "name"), "Unknown");
            let ghost before = m@;
            m.push((owned(id), owned(name)));
            proof {
                assert(tool_map_views(m@) =~= tool_map_views(before).push((id@, name@)));
            }
        }
        k += 1;
    }
    proof {
        assert(items@.take(items@.len() as int) =~= items@);
    }
}

fn tool_result_part(item: &Json, m: &Vec<(String, String)>) -> (r: String)
    ensures
        r@ == tool_result_line(
            *item,
            tool_name_of(tool_map_views(m@), str_or(get(*item, "tool_use_id"@), Seq::empty())),
        ),
{
    proof {
        reveal_strlit("");
        assert(""@ =~= Seq::<char>::empty());
    }
    let id = str_or_exec(json_get(item, "tool_use_id"), "");
    let name = tool_lookup(m, id);
    format_tool_result(item, name)
}

fn assistant_part_exec(item: &Json, m: &Vec<(String, String)>) -> (r: Option<String>)
    ensures
        match r {
            Some(p) => assistant_part(*item, tool_map_views(m@)) == Some(p@),
            None => assistant_part(*item, tool_map_views(m@)) is None,
        },
{
    match item {
        Json::Object(_) => {},
        _ => {
            return None;
        },
    }
    proof {
        reveal_strlit("");
        assert(""@ =~= Seq::<char>::empty());
    }
    let ty = str_or_exec(json_get(item, "type"), "");
    let part = if str_eq(ty, "text") {
        match json_as_str(json_get(item, "text")) {
            Some(t) => trim_str(t),
            None => String::new(),
        }
    } else if str_eq(ty, "tool_use") {
        format_tool_use(item)
    } else if str_eq(ty, "tool_result") {
        tool_result_part(item, m)
    } else {
        String::new()
    };
    if part.as_str().is_empty() {
        None
    } else {
        Some(part)
    }
}

/// The text of an assistant message content; `tools` holds the tool calls
/// seen so far.
pub fn extract_claude_code_assistant_text(content: &Json, tools: &Vec<(String, String)>) -> (r: String)
    ensures
        r@ == assistant_text(*content, tool_map_views(tools@)),
{
    proof {
        reveal_strlit("");
        assert(""@ =~= Seq::<char>::empty());
    }
    match content {
        Json::Str(s) => trim_str(s.as_str()),
        Json::Array(items) => {
            let ghost mv = tool_map_views(tools@);
            let mut parts: Vec<String> = Vec::new();
            let mut k: usize = 0;
            while k < items.len()
                invariant
                    k <= items@.len(),
                    mv == tool_map_views(tools@),
                    str_views(parts@) == assistant_parts(items@.take(k as int), mv),
                decreases items.len() - k,
            {
                proof {
                    assert(items@.take(k + 1).drop_last() =~= items@.take(k as int));
                    assert(items@.take(k + 1).last() == items@[k as int]);
                }
                match assistant_part_exec(&items[k], tools) {
                    Some(p) => {
                        let ghost before = parts@;
                        parts.push(p);
                        proof {
                            assert(str_views(parts@) =~= str_views(before).push(parts@.last()@));
                        }
                    },
                    None => {},
                }
                k += 1;
            }
            proof {
                assert(items@.take(items@.len() as int) =~= items@);
            }
            join_strings(&parts, " ")
        },
        Json::Object(_) => trim_str(str_or_exec(json_get(content, "text"), "")),
        _ => String::new(),
    }
}

/// The text of a user message content, and whether it holds nothing but
/// tool results; `tools` holds the tool calls seen so far.
pub fn extract_claude_code_user_text(content: &Json, tools: &Vec<(String, String)>) -> (r: (String, bool))
    ensures
        (r.0@, r.1) == user_text(*content, tool_map_views(tools@)),
{
    proof {
        reveal_strlit("");
        assert(""@ =~= Seq::<char>::empty());
    }
    let items = match content {
        Json::Str(s) => {
            return (trim_str(s.as_str()), false);
        },
        Json::Array(items) => items,
        _ => {
            return (String::new(), false);
        },
    };
    let ghost mv = tool_map_views(tools@);
    let mut parts: Vec<String> = Vec::new();
    let mut has_result = false;
    let mut has_text = false;
    let mut k: usize = 0;
    while k < items.len()
        invariant
            k <= items@.len(),
            mv == tool_map_views(tools@),
            user_fold(items@.take(k as int), mv) == (str_views(parts@), has_result, has_text),
        decreases items.len() - k,
    {
        proof {
            assert(items@.take(k + 1).drop_last() =~= items@.take(k as int));
            assert(items@.take(k + 1).last() == items@[k as int]);
            reveal_strlit("");
            assert(""@ =~= Seq::<char>::empty());
        }
        let item = &items[k];
        match item {
            Json::Object(_) => {
                let ty = str_or_exec(json_get(item, "type"), "");
                if str_eq(ty, "text") {
                    match json_as_str(json_get(item, "text")) {
                        Some(t) => {
                            let tt = trim_str(t);
                            if !tt.as_str().is_empty() {
                                let ghost before = parts@;
                                parts.push(tt);
                                proof {
                                    assert(str_views(parts@) =~= str_views(before).push(trim(t@)));
                                }
                                has_text = true;
                            }
                        },
                        None => {},
                    }
                } else if str_eq(ty, "tool_result") {
                    has_result = true;
                    let f = tool_result_part(item, tools);
                    if !f.as_str().is_empty() {
                        let ghost before = parts@;
                        parts.push(f);
                        proof {
                            assert(str_views(parts@) =~= str_views(before).push(parts@.last()@));
                        }
                    }
                }
            },
            _ => {},
        }
        k += 1;
    }
    proof {
        assert(items@.take(items@.len() as int) =~= items@);
    }
    (join_strings(&parts, " "), has_result && !has_text)
}

// ---------------------------------------------------------------------------
// The session log
// ---------------------------------------------------------------------------

/// Reading a agent-CLI log: the messages and the tool calls so far.
pub type AgentLogState = (Seq<MessageView>, ToolMap);

/// One line of the log.  Assistant lines record their tool calls and add
/// their text, noise stripped, when it is not empty.  User lines add their
/// text; a user line that holds only tool results is appended to the
/// assistant turn before it instead.  Other lines change nothing.
pub open spec fn claude_step(st: AgentLogState, line: Option<Json>) -> AgentLogState {
    match line {
        None => st,
        Some(e) => if !(e is Object) {
            st
        } else {
            match (as_str(get(e, "type"@)), as_object(get(e, "message"@))) {
                (Some(t), Some(msg)) => match get(msg, "content"@) {
                    None => st,
                    Some(c) => if t == "assistant"@ {
                        let m2 = match c {
                            Json::Array(v) => st.1 + tool_uses(v@),
                            _ => st.1,
                        };
                        let text = strip_noise_spec(assistant_text(c, m2));
                        if text.len() == 0 {
                            (st.0, m2)
                        } else {
                            (st.0.push(("assistant"@, text)), m2)
                        }
                    } else if t == "human"@ || t == "user"@ {
                        let (ut, tool_only) = user_text(c, st.1);
                        if tool_only && st.0.len() > 0 && st.0.last().0 == "assistant"@ {
                            if ut.len() > 0 {
                                (
                                    st.0.update(
                                        st.0.len() - 1,
                                        ("assistant"@, st.0.last().1 + "\n"@ + ut),
                                    ),
                                    st.1,
                                )
                            } else {
                                st
                            }
                        } else if ut.len() == 0 {
                            st
                        } else {
                            (st.0.push(("user"@, ut)), st.1)
                        }
                    } else {
                        st
                    },
                },
                _ => st,
            }
        },
    }
}

pub open spec fn claude_fold(ls: Seq<Option<Json>>) -> AgentLogState
    decreases ls.len(),
{
    if ls.len() == 0 {
        (Seq::empty(), Seq::empty())
    } else {
        claude_step(claude_fold(ls.drop_last()), ls.last())
    }
}

/// A agent-CLI log, given its lines decoded (`None` for a line that is
/// not JSON).
pub open spec fn claude_code_spec(ls: Seq<Option<Json>>) -> Option<Seq<char>> {
    transcript_if_two(claude_fold(ls).0)
}

fn claude_step_exec(ms: &mut Vec<(String, String)>, tools: &mut Vec<(String, String)>, line: &Option<Json>)
    ensures
        (msg_views(final(ms)@), tool_map_views(final(tools)@)) == claude_step(
            (msg_views(old(ms)@), tool_map_views(old(tools)@)),
            *line,
        ),
{
    let e = match line {
        None => {
            return;
        },
        Some(e) => e,
    };
    match e {
        Json::Object(_) => {},
        _ => {
            return;
        },
    }
    let t = match json_as_str(json_get(e, "type")) {
        Some(t) => t,
        None => {
            return;
        },
    };
    let msg = match json_as_object(json_get(e, "message")) {
        Some(m) => m,
        None => {
            return;
        },
    };
    let c = match json_get(msg, "content") {
        Some(c) => c,
        None => {
            return;
        },
    };
    if str_eq(t, "assistant") {
        match c {
            Json::Array(v) => {
                record_tool_uses(tools, v);
            },
            _ => {},
        }
        let a = extract_claude_code_assistant_text(c, tools);
        let text = strip_noise(a.as_str());
        if !text.as_str().is_empty() {
            push_msg(ms, "assistant", text);
        }
    } else if str_eq(t, "human") || str_eq(t, "user") {
        let (ut, tool_only) = extract_claude_code_user_text(c, tools);
        let n = ms.len();
        let prev_assistant = n > 0 && str_eq(ms[n - 1].0.as_str(), "assistant");
        proof {
            if n > 0 {
                assert(msg_views(ms@).last() == (ms@[n - 1].0@, ms@[n - 1].1@));
            }
        }
        if tool_only && prev_assistant {
            if !ut.as_str().is_empty() {
                let ghost before = ms@;
                let mut joined = owned(ms[n - 1].1.as_str());
                push_str(&mut joined, "\n");
                push_str(&mut joined, ut.as_str());
                ms.set(n - 1, (owned("assistant"), joined));
                proof {
                    assert(msg_views(ms@) =~= msg_views(before).update(
                        n - 1,
                        ("assistant"@, msg_views(before).last().1 + "\n"@ + ut@),
                    ));
                }
            }
        } else if !ut.as_str().is_empty() {
            push_msg(ms, "user", ut);
        }
    }
}

/// Parse a agent-CLI session log (lines decoded; `None` for a line that
/// is not JSON).
pub fn try_claude_code_jsonl(lines: &[Option<Json>]) -> (r: Option<String>)
    ensures
        match r {
            Some(t) => claude_code_spec(lines@) == Some(t@),
            None => claude_code_spec(lines@) is None,
        },
{
    let mut ms: Vec<(String, String)> = Vec::new();
    let mut tools: Vec<(String, String)> = Vec::new();
    let mut i: usize = 0;
    proof {
        assert(lines@.take(0) =~= Seq::<Option<Json>>::empty());
        assert(msg_views(ms@) =~= Seq::<MessageView>::empty());
        assert(tool_map_views(tools@) =~= Seq::<(Seq<char>, Seq<char>)>::empty());
    }
    while i < lines.len()
        invariant
            i <= lines@.len(),
            claude_fold(lines@.take(i as int)) == (msg_views(ms@), tool_map_views(tools@)),
        decreases lines.len() - i,
    {
        proof {
            assert(lines@.take(i + 1).drop_last() =~= lines@.take(i as int));
            assert(lines@.take(i + 1).last() == lines@[i as int]);
        }
        claude_step_exec(&mut ms, &mut tools, &lines[i]);
        i += 1;
    }
    proof {
        assert(lines@.take(lines@.len() as int) =~= lines@);
    }
    transcript_if_two_exec(&ms)
}

} // verus!
