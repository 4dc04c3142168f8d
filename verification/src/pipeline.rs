//! Aider chat histories, the order in which the parsers are tried, and the
//! entry point that decides whether a file is normalized at all.
use vstd::prelude::*;
use crate::json::{
    as_array, as_object, as_str, get, get_either, json_as_array, json_as_object, json_as_str, json_get,
    json_get_either, Json,
};
use crate::normalize::{
    content_text, extract_content_to_string, get_first3, json_get_first3, msg_views, object_texts,
    object_texts_exec, push_msg, transcript_if_two, transcript_if_two_exec, MessageView,
};
use crate::obsidian_export::join_strings;
use crate::text::{
    chars_of, contains_sub, lines, lines_of, owned, push_char, push_str, starts_with, str_contains, str_views,
    str_eq, string_from_chars, trim, trim_chars, trim_str, join,
};

verus! {

broadcast use vstd::string::group_string_axioms;

// ---------------------------------------------------------------------------
// Aider
// ---------------------------------------------------------------------------

/// The number of lines whose trimmed text starts with `> `.
pub open spec fn quoted_turns(ls: Seq<Seq<char>>) -> nat
    decreases ls.len(),
{
    if ls.len() == 0 {
        0
    } else {
        quoted_turns(ls.drop_last()) + if starts_with(trim(ls.last()), "> "@) {
            1nat
        } else {
            0nat
        }
    }
}

/// Aider's markers: its header, or at least two quoted lines.
pub open spec fn aider_marked(content: Seq<char>) -> bool {
    let t = trim(content);
    contains_sub(t, "Aider Chat History"@) || contains_sub(t, "aider.chat.history"@) || quoted_turns(lines(t)) >= 2
}

/// Reading an Aider history: the messages so far and the assistant text
/// being gathered.
pub type AiderState = (Seq<MessageView>, Seq<char>);

/// Close the gathered assistant text, if any.
pub open spec fn aider_flush(st: AiderState) -> Seq<MessageView> {
    if st.1.len() > 0 {
        st.0.push(("assistant"@, trim(st.1)))
    } else {
        st.0
    }
}

/// One line: a quoted line closes the assistant text and is a user turn;
/// headers, code fences and blank lines are passed over; any other line
/// is gathered as assistant text.
pub open spec fn aider_step(st: AiderState, line: Seq<char>) -> AiderState {
    let tl = trim(line);
    if tl.len() == 0 {
        st
    } else if starts_with(tl, "> "@) {
        let ms = aider_flush(st);
        let u = trim(tl.skip(2));
        (
            if u.len() > 0 {
                ms.push(("user"@, u))
            } else {
                ms
            },
            Seq::empty(),
        )
    } else if starts_with(tl, "#"@) || starts_with(tl, "```"@) {
        st
    } else {
        (
            st.0,
            if st.1.len() > 0 {
                st.1 + "\n"@ + tl
            } else {
                tl
            },
        )
    }
}

pub open spec fn aider_fold(ls: Seq<Seq<char>>) -> AiderState
    decreases ls.len(),
{
    if ls.len() == 0 {
        (Seq::empty(), Seq::empty())
    } else {
        aider_step(aider_fold(ls.drop_last()), ls.last())
    }
}

pub open spec fn aider_spec(content: Seq<char>) -> Option<Seq<char>> {
    if !aider_marked(content) {
        None
    } else {
        transcript_if_two(aider_flush(aider_fold(lines(content))))
    }
}

fn count_quoted_turns(t: &[char]) -> (r: usize)
    ensures
        r == quoted_turns(lines(t@)),
{
    let ls = lines_of(t);
    let ghost lv = lines(t@);
    let mut n: usize = 0;
    let mut k: usize = 0;
    while k < ls.len()
        invariant
            k <= ls@.len(),
            ls@.len() == lv.len(),
            lv == lines(t@),
            forall|i: int| 0 <= i < ls@.len() ==> #[trigger] ls@[i]@ == lv[i],
            n == quoted_turns(lv.take(k as int)),
            n <= k,
        decreases ls.len() - k,
    {
        proof {
            assert(lv.take(k + 1).drop_last() =~= lv.take(k as int));
            assert(lv.take(k + 1).last() == ls@[k as int]@);
        }
        let tl = trim_chars(ls[k].as_slice());
        if tl.len() >= 2 && tl[0] == '>' && tl[1] == ' ' {
            proof {
                assert(tl@.take(2) =~= "> "@) by {
                    reveal_strlit("> ");
                }
            }
            n += 1;
        } else {
            proof {
                reveal_strlit("> ");
                if starts_with(tl@, "> "@) {
                    assert(tl@.take(2)[0] == '>');
                    assert(tl@.take(2)[1] == ' ');
                }
            }
        }
        k += 1;
    }
    proof {
        assert(lv.take(lv.len() as int) =~= lv);
    }
    n
}

fn starts_with_lit(s: &[char], lit: &str) -> (b: bool)
    ensures
        b == starts_with(s@, lit@),
{
    let l = chars_of(lit);
    crate::text::seq_starts_with(s, l.as_slice())
}

/// Parse an Aider chat history (`.aider.chat.history.md`).
pub fn try_aider_md(content: &str) -> (r: Option<String>)
    ensures
        match r {
            Some(t) => aider_spec(content@) == Some(t@),
            None => aider_spec(content@) is None,
        },
{
    let t = crate::text::trim_str(content);
    let tc = chars_of(t.as_str());
    let marked = str_contains(t.as_str(), "Aider Chat History") || str_contains(t.as_str(), "aider.chat.history")
        || count_quoted_turns(tc.as_slice()) >= 2;
    if !marked {
        return None;
    }
    let cs = chars_of(content);
    let ls = lines_of(cs.as_slice());
    let ghost lv = lines(content@);
    let mut ms: Vec<(String, String)> = Vec::new();
    let mut cur = String::new();
    let mut k: usize = 0;
    proof {
        assert(lv.take(0) =~= Seq::<Seq<char>>::empty());
        assert(msg_views(ms@) =~= Seq::<MessageView>::empty());
    }
    while k < ls.len()
        invariant
            k <= ls@.len(),
            ls@.len() == lv.len(),
            lv == lines(content@),
            forall|i: int| 0 <= i < ls@.len() ==> #[trigger] ls@[i]@ == lv[i],
            aider_fold(lv.take(k as int)) == (msg_views(ms@), cur@),
        decreases ls.len() - k,
    {
        proof {
            assert(lv.take(k + 1).drop_last() =~= lv.take(k as int));
            assert(lv.take(k + 1).last() == ls@[k as int]@);
        }
        let tl = trim_chars(ls[k].as_slice());
        if tl.len() == 0 {
        } else if starts_with_lit(tl.as_slice(), "> ") {
            proof {
                reveal_strlit("> ");
                assert(tl@.skip(2) =~= tl@.subrange(2, tl@.len() as int));
            }
            if !cur.as_str().is_empty() {
                let a = crate::text::trim_str(cur.as_str());
                push_msg(&mut ms, "assistant", a);
            }
            cur = String::new();
            let rest = string_from_chars(vstd::slice::slice_subrange(tl.as_slice(), 2, tl.len()));
            let u = crate::text::trim_str(rest.as_str());
            if !u.as_str().is_empty() {
                push_msg(&mut ms, "user", u);
            }
        } else if starts_with_lit(tl.as_slice(), "#") || starts_with_lit(tl.as_slice(), "```") {
        } else {
            let ts = string_from_chars(tl.as_slice());
            if !cur.as_str().is_empty() {
                push_char(&mut cur, '\n');
                proof {
                    reveal_strlit("\n");
                }
            }
            push_str(&mut cur, ts.as_str());
        }
        k += 1;
    }
    proof {
        assert(lv.take(lv.len() as int) =~= lv);
    }
    if !cur.as_str().is_empty() {
        let a = crate::text::trim_str(cur.as_str());
        push_msg(&mut ms, "assistant", a);
    }
    transcript_if_two_exec(&ms)
}

// ---------------------------------------------------------------------------
// One entry of a known JSONL format
// ---------------------------------------------------------------------------

/// The text of a Gemini CLI entry: its string `content`, else its `parts`'
/// texts joined by newlines.
pub open spec fn gemini_entry_text(j: Json) -> Option<Seq<char>> {
    match as_str(get(j, "content"@)) {
        Some(c) => Some(c),
        None => match as_array(get(j, "parts"@)) {
            Some(ps) => Some(join(object_texts(ps, "text"@), "\n"@)),
            None => None,
        },
    }
}

/// The text of a SoulForge entry: the `text` of its `message` object (or
/// of that message's first segment), else its own `text`; empty when
/// there is none.
pub open spec fn soulforge_entry_text(j: Json) -> Seq<char> {
    let t = match as_object(get(j, "message"@)) {
        Some(msg) => as_str(
            match get(msg, "text"@) {
                Some(v) => Some(v),
                None => match as_array(get(msg, "segments"@)) {
                    Some(segs) => if segs.len() > 0 && segs[0] is Object {
                        get(segs[0], "text"@)
                    } else {
                        None
                    },
                    None => None,
                },
            },
        ),
        None => as_str(get(j, "text"@)),
    };
    match t {
        Some(x) => x,
        None => Seq::empty(),
    }
}

/// The message one entry of a known JSONL format holds: its role mapped to
/// `user` or `assistant`, and its text.
pub open spec fn entry_message(entry: Json, format: Seq<char>) -> Option<MessageView> {
    if !(entry is Object) {
        None
    } else if format == "claude_code_jsonl"@ {
        match (as_str(get(entry, "type"@)), as_object(get(entry, "message"@))) {
            (Some(t), Some(msg)) => {
                let role = if t == "human"@ || t == "user"@ {
                    Some("user"@)
                } else if t == "assistant"@ {
                    Some("assistant"@)
                } else {
                    None
                };
                match (role, get(msg, "content"@)) {
                    (Some(r), Some(c)) => Some((r, content_text(c))),
                    _ => None,
                }
            },
            _ => None,
        }
    } else if format == "codex_jsonl"@ {
        match (as_str(get(entry, "type"@)), as_str(get(entry, "text"@))) {
            (Some(t), Some(x)) => if t == "event_msg/user_message"@ {
                Some(("user"@, x))
            } else if t == "event_msg/agent_message"@ {
                Some(("assistant"@, x))
            } else {
                None
            },
            _ => None,
        }
    } else if format == "gemini_cli_jsonl"@ {
        match (as_str(get_either(entry, "role"@, "type"@)), gemini_entry_text(entry)) {
            (Some(r), Some(x)) => if r == "model"@ || r == "assistant"@ || r == "ai"@ {
                Some(("assistant"@, x))
            } else if r == "user"@ || r == "human"@ {
                Some(("user"@, x))
            } else {
                None
            },
            _ => None,
        }
    } else if format == "pi_jsonl"@ {
        match (as_str(get_either(entry, "type"@, "kind"@)), as_str(get_first3(entry, "text"@, "message"@, "content"@))) {
            (Some(r), Some(x)) => if r == "user"@ || r == "human"@ {
                Some(("user"@, trim(x)))
            } else if r == "pi"@ || r == "assistant"@ || r == "ai"@ {
                Some(("assistant"@, trim(x)))
            } else {
                None
            },
            _ => None,
        }
    } else if format == "soulforge_jsonl"@ {
        match as_str(get(entry, "role"@)) {
            Some(r) => if r == "user"@ || r == "human"@ {
                Some(("user"@, soulforge_entry_text(entry)))
            } else if r == "assistant"@ || r == "ai"@ || r == "agent"@ {
                Some(("assistant"@, soulforge_entry_text(entry)))
            } else {
                None
            },
            None => None,
        }
    } else {
        None
    }
}

fn gemini_entry_text_exec(j: &Json) -> (r: Option<String>)
    ensures
        match r {
            Some(t) => gemini_entry_text(*j) == Some(t@),
            None => gemini_entry_text(*j) is None,
        },
{
    match json_as_str(json_get(j, "content")) {
        Some(c) => Some(owned(c)),
        None => match json_as_array(json_get(j, "parts")) {
            Some(ps) => {
                let buf = object_texts_exec(ps, "text");
                Some(join_strings(&buf, "\n"))
            },
            None => None,
        },
    }
}

fn soulforge_entry_text_exec(j: &Json) -> (r: String)
    ensures
        r@ == soulforge_entry_text(*j),
{
    let t: Option<&str> = match json_as_object(json_get(j, "message")) {
        Some(msg) => json_as_str(
            match json_get(msg, "text") {
                Some(v) => Some(v),
                None => match json_as_array(json_get(msg, "segments")) {
                    Some(segs) => if segs.len() > 0 {
                        match &segs[0] {
                            Json::Object(_) => json_get(&segs[0], "text"),
                            _ => None,
                        }
                    } else {
                        None
                    },
                    None => None,
                },
            },
        ),
        None => json_as_str(json_get(j, "text")),
    };
    match t {
        Some(x) => owned(x),
        None => String::new(),
    }
}

/// The message one entry of a known JSONL format holds (`None` when the
/// entry holds none, or the format is not one of the JSONL formats).
pub fn extract_message_from_entry(entry: &Json, source_format: &str) -> (r: Option<(String, String)>)
    ensures
        match r {
            Some(m) => entry_message(*entry, source_format@) == Some((m.0@, m.1@)),
            None => entry_message(*entry, source_format@) is None,
        },
{
    match entry {
        Json::Object(_) => {},
        _ => {
            return None;
        },
    }
    if str_eq(source_format, "claude_code_jsonl") {
        let t = match json_as_str(json_get(entry, "type")) {
            Some(t) => t,
            None => {
                return None;
            },
        };
        let msg = match json_as_object(json_get(entry, "message")) {
            Some(m) => m,
            None => {
                return None;
            },
        };
        let role = if str_eq(t, "human") || str_eq(t, "user") {
            "user"
        } else if str_eq(t, "assistant") {
            "assistant"
        } else {
            return None;
        };
        match json_get(msg, "content") {
            Some(c) => Some((owned(role), extract_content_to_string(c))),
            None => None,
        }
    } else if str_eq(source_format, "codex_jsonl") {
        let t = match json_as_str(json_get(entry, "type")) {
            Some(t) => t,
            None => {
                return None;
            },
        };
        let x = match json_as_str(json_get(entry, "text")) {
            Some(x) => x,
            None => {
                return None;
            },
        };
        if str_eq(t, "event_msg/user_message") {
            Some((owned("user"), owned(x)))
        } else if str_eq(t, "event_msg/agent_message") {
            Some((owned("assistant"), owned(x)))
        } else {
            None
        }
    } else if str_eq(source_format, "gemini_cli_jsonl") {
        let r = match json_as_str(json_get_either(entry, "role", "type")) {
            Some(r) => r,
            None => {
                return None;
            },
        };
        let x = match gemini_entry_text_exec(entry) {
            Some(x) => x,
            None => {
                return None;
            },
        };
        if str_eq(r, "model") || str_eq(r, "assistant") || str_eq(r, "ai") {
            Some((owned("assistant"), x))
        } else if str_eq(r, "user") || str_eq(r, "human") {
            Some((owned("user"), x))
        } else {
            None
        }
    } else if str_eq(source_format, "pi_jsonl") {
        let r = match json_as_str(json_get_either(entry, "type", "kind")) {
            Some(r) => r,
            None => {
                return None;
            },
        };
        let x = match json_as_str(json_get_first3(entry, "text", "message", "content")) {
            Some(x) => trim_str(x),
            None => {
                return None;
            },
        };
        if str_eq(r, "user") || str_eq(r, "human") {
            Some((owned("user"), x))
        } else if str_eq(r, "pi") || str_eq(r, "assistant") || str_eq(r, "ai") {
            Some((owned("assistant"), x))
        } else {
            None
        }
    } else if str_eq(source_format, "soulforge_jsonl") {
        let r = match json_as_str(json_get(entry, "role")) {
            Some(r) => r,
            None => {
                return None;
            },
        };
        if str_eq(r, "user") || str_eq(r, "human") {
            Some((owned("user"), soulforge_entry_text_exec(entry)))
        } else if str_eq(r, "assistant") || str_eq(r, "ai") || str_eq(r, "agent") {
            Some((owned("assistant"), soulforge_entry_text_exec(entry)))
        } else {
            None
        }
    } else {
        None
    }
}

// ---------------------------------------------------------------------------
// Trying the parsers in turn
// ---------------------------------------------------------------------------

pub open spec fn first_some(a: Option<Seq<char>>, b: Option<Seq<char>>) -> Option<Seq<char>> {
    if a is Some {
        a
    } else {
        b
    }
}

/// The transcript of the first parser that recognises the content: the
/// JSONL formats (agent-CLI, Gemini CLI, Codex, SoulForge, Pi) on the
/// decoded lines, Aider on the text, then the whole-document exports
/// (web-chat, ChatGPT, AI Studio, Continue.dev, Slack) on the decoded
/// document.
pub open spec fn normalized_json(content: Seq<char>, ls: Seq<Option<Json>>, whole: Option<Json>) -> Option<
    Seq<char>,
> {
    first_some(
        crate::claude_code::claude_code_spec(ls),
        first_some(
            crate::normalize::gemini_cli_spec(ls),
            first_some(
                crate::normalize::codex_spec(ls),
                first_some(
                    crate::normalize::soulforge_spec(ls),
                    first_some(
                        crate::normalize::pi_spec(ls),
                        first_some(
                            aider_spec(content),
                            match whole {
                                None => None,
                                Some(d) => first_some(
                                    crate::exports::claude_ai_spec(d),
                                    first_some(
                                        crate::exports::chatgpt_spec(d),
                                        first_some(
                                            crate::exports::studio_spec(d),
                                            first_some(
                                                crate::exports::continue_spec(d),
                                                crate::exports::slack_spec(d),
                                            ),
                                        ),
                                    ),
                                ),
                            },
                        ),
                    ),
                ),
            ),
        ),
    )
}

/// Try every parser in turn; `lines` are the content's JSONL lines decoded
/// (see [`crate::normalize::jsonl_lines`]) and `whole` the content decoded
/// as one document.
pub fn try_normalize_json(content: &str, lines: &[Option<Json>], whole: &Option<Json>) -> (r: Option<String>)
    ensures
        match r {
            Some(t) => normalized_json(content@, lines@, *whole) == Some(t@),
            None => normalized_json(content@, lines@, *whole) is None,
        },
{
    if let Some(t) = crate::claude_code::try_claude_code_jsonl(lines) {
        return Some(t);
    }
    if let Some(t) = crate::normalize::try_gemini_cli_jsonl(lines) {
        return Some(t);
    }
    if let Some(t) = crate::normalize::try_codex_jsonl(lines) {
        return Some(t);
    }
    if let Some(t) = crate::normalize::try_soulforge_jsonl(lines) {
        return Some(t);
    }
    if let Some(t) = crate::normalize::try_pi_jsonl(lines) {
        return Some(t);
    }
    if let Some(t) = try_aider_md(content) {
        return Some(t);
    }
    let d = match whole {
        Some(d) => d,
        None => {
            return None;
        },
    };
    if let Some(t) = crate::exports::try_claude_ai_json(d) {
        return Some(t);
    }
    if let Some(t) = crate::exports::try_chatgpt_json(d) {
        return Some(t);
    }
    if let Some(t) = crate::exports::try_gemini_ai_studio_json(d) {
        return Some(t);
    }
    if let Some(t) = crate::exports::try_continue_dev_json(d) {
        return Some(t);
    }
    crate::exports::try_slack_json(d)
}

// ---------------------------------------------------------------------------
// The entry point
// ---------------------------------------------------------------------------

/// The largest file that is normalized: 500 MiB.
pub const MAX_FILE_SIZE_BYTES: u64 = 524288000;

/// Why a file is not normalized.
#[derive(Debug)]
pub enum NormalizeError {
    /// The file is larger than the cap.
    TooLarge { size: u64, cap: u64 },
}

/// ASCII case-insensitive equality (`str::eq_ignore_ascii_case`).
pub open spec fn eq_ignore_ascii_case(a: Seq<char>, b: Seq<char>) -> bool {
    a.len() == b.len() && forall|i: int| 0 <= i < a.len() ==> crate::text::ascii_lower(#[trigger] a[i]) == crate::text::ascii_lower(b[i])
}

pub fn eq_ignore_ascii_case_exec(a: &str, b: &str) -> (r: bool)
    ensures
        r == eq_ignore_ascii_case(a@, b@),
{
    let ac = chars_of(a);
    let bc = chars_of(b);
    if ac.len() != bc.len() {
        return false;
    }
    let mut k: usize = 0;
    while k < ac.len()
        invariant
            k <= ac@.len(),
            ac@ == a@,
            bc@ == b@,
            ac@.len() == bc@.len(),
            forall|i: int| 0 <= i < k ==> crate::text::ascii_lower(#[trigger] a@[i]) == crate::text::ascii_lower(b@[i]),
        decreases ac.len() - k,
    {
        if crate::text::to_ascii_lower(ac[k]) != crate::text::to_ascii_lower(bc[k]) {
            return false;
        }
        k += 1;
    }
    true
}

/// The extension names an SQLite database (`db` or `sqlite`, any case).
pub open spec fn is_db_ext(ext: Seq<char>) -> bool {
    eq_ignore_ascii_case(ext, "db"@) || eq_ignore_ascii_case(ext, "sqlite"@)
}

/// Whether a file with this extension is read as an OpenCode database.
pub fn is_db_extension(ext: &str) -> (r: bool)
    ensures
        r == is_db_ext(ext@),
{
    eq_ignore_ascii_case_exec(ext, "db") || eq_ignore_ascii_case_exec(ext, "sqlite")
}

/// Content that is tried as JSON: a `json`/`jsonl` extension, or trimmed
/// content that opens an object or an array.
pub open spec fn json_like(content: Seq<char>, ext: Seq<char>) -> bool {
    let t = trim(content);
    eq_ignore_ascii_case(ext, "json"@) || eq_ignore_ascii_case(ext, "jsonl"@) || (t.len() > 0 && (t[0] == '{'
        || t[0] == '['))
}

/// What normalizing a file gives.  Blank content and content with at
/// least three quoted lines stand as they are; a file over the cap is an
/// error; a database gives the transcript read from it (`db_text`), when
/// there is one; JSON-like content gives the first parser's transcript;
/// anything else stands as it is.
pub open spec fn normalized(
    content: Seq<char>,
    ext: Seq<char>,
    file_len: Option<u64>,
    db_text: Option<Seq<char>>,
    ls: Seq<Option<Json>>,
    whole: Option<Json>,
) -> Result<Seq<char>, u64> {
    if trim(content).len() == 0 {
        Ok(content)
    } else if file_len is Some && file_len->0 > MAX_FILE_SIZE_BYTES {
        Err(file_len->0)
    } else if crate::normalize::quoted_lines(crate::text::split_on(content, '\n')) >= 3 {
        Ok(content)
    } else if is_db_ext(ext) && db_text is Some {
        Ok(db_text->0)
    } else if json_like(content, ext) && normalized_json(content, ls, whole) is Some {
        Ok(normalized_json(content, ls, whole)->0)
    } else {
        Ok(content)
    }
}

/// Normalize a file's content into a transcript, given its JSONL lines
/// decoded (`lines`) and its content decoded as one document (`whole`);
/// see [`normalize`].
pub fn normalize_decoded(
    content: &str,
    ext: &str,
    file_len: Option<u64>,
    db_text: Option<String>,
    lines: &[Option<Json>],
    whole: &Option<Json>,
) -> (r: Result<String, NormalizeError>)
    ensures
        match r {
            Ok(t) => normalized(
                content@,
                ext@,
                file_len,
                match db_text {
                    Some(x) => Some(x@),
                    None => None,
                },
                lines@,
                *whole,
            ) == Ok::<Seq<char>, u64>(t@),
            Err(NormalizeError::TooLarge { size, cap }) => cap == MAX_FILE_SIZE_BYTES && normalized(
                content@,
                ext@,
                file_len,
                match db_text {
                    Some(x) => Some(x@),
                    None => None,
                },
                lines@,
                *whole,
            ) == Err::<Seq<char>, u64>(size),
        },
{
    let t = trim_str(content);
    if t.as_str().is_empty() {
        return Ok(owned(content));
    }
    if let Some(n) = file_len {
        if n > MAX_FILE_SIZE_BYTES {
            return Err(NormalizeError::TooLarge { size: n, cap: MAX_FILE_SIZE_BYTES });
        }
    }
    if crate::normalize::count_quoted_lines(content) >= 3 {
        return Ok(owned(content));
    }
    if is_db_extension(ext) {
        if let Some(x) = db_text {
            return Ok(x);
        }
    }
    let tc = chars_of(t.as_str());
    let like = eq_ignore_ascii_case_exec(ext, "json") || eq_ignore_ascii_case_exec(ext, "jsonl") || (tc.len() > 0
        && (tc[0] == '{' || tc[0] == '['));
    if like {
        if let Some(x) = try_normalize_json(content, lines, whole) {
            return Ok(x);
        }
    }
    Ok(owned(content))
}

/// What normalizing gives, with the content decoded by serde_json: its
/// JSONL lines one by one, and the whole content as one document.
pub open spec fn normalized_text(
    content: Seq<char>,
    ext: Seq<char>,
    file_len: Option<u64>,
    db_text: Option<Seq<char>>,
) -> Result<Seq<char>, u64> {
    normalized(
        content,
        ext,
        file_len,
        db_text,
        crate::json::decoded_all(crate::normalize::jsonl_lines(content)),
        crate::json::json_decoded(content),
    )
}

/// Normalize a file's content into a transcript.  `ext` is the file's
/// extension, `file_len` its size on disk (when known), `db_text` what
/// reading it as an OpenCode database gave (looked at only for a database
/// extension).
pub fn normalize(content: &str, ext: &str, file_len: Option<u64>, db_text: Option<String>) -> (r: Result<
    String,
    NormalizeError,
>)
    ensures
        match r {
            Ok(t) => normalized_text(
                content@,
                ext@,
                file_len,
                match db_text {
                    Some(x) => Some(x@),
                    None => None,
                },
            ) == Ok::<Seq<char>, u64>(t@),
            Err(NormalizeError::TooLarge { size, cap }) => cap == MAX_FILE_SIZE_BYTES && normalized_text(
                content@,
                ext@,
                file_len,
                match db_text {
                    Some(x) => Some(x@),
                    None => None,
                },
            ) == Err::<Seq<char>, u64>(size),
        },
{
    let ls = crate::normalize::split_jsonl_lines(content);
    let lines = crate::json::decode_strings(&ls);
    let whole = crate::json::decode_json(content);
    normalize_decoded(content, ext, file_len, db_text, lines.as_slice(), &whole)
}

} // verus!
