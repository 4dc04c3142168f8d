//! Transcripts read into observations: one per user or assistant message,
//! each with an id derived from its format, position and text.
use vstd::prelude::*;
use vstd::utf8::encode_utf8;
use crate::auth::sha256;
use crate::json::{json_text, to_json_text, Json};
use crate::normalize::{msg_views, transcript_messages, MessageView};
use crate::pipeline::{eq_ignore_ascii_case, eq_ignore_ascii_case_exec, entry_message, normalized_json, MAX_FILE_SIZE_BYTES};
use crate::text::{byte_len, chars_of, decimal, decimal_string, owned, push_char, push_str, str_eq, str_len, trim, trim_str};

verus! {

broadcast use vstd::string::group_string_axioms;

// ---------------------------------------------------------------------------
// Observations
// ---------------------------------------------------------------------------

/// The hook an observation is filed under.
#[derive(Clone, Copy, PartialEq, Eq, Structural, Debug)]
pub enum HookType {
    UserPromptSubmit,
    PostToolUse,
    Notification,
}

/// One observed message.  `timestamp` is in seconds since the Unix epoch.
#[derive(Debug)]
pub struct RawObservation {
    pub id: String,
    pub session_id: String,
    pub timestamp: i64,
    pub hook_type: HookType,
    pub tool_name: Option<String>,
    pub tool_input: Option<String>,
    pub tool_output: Option<String>,
    pub user_prompt: Option<String>,
    pub assistant_response: Option<String>,
    pub raw: Option<String>,
    pub modality: String,
    pub image_data: Option<String>,
    pub agent_id: Option<String>,
}

/// A lowercase hexadecimal digit of a value below 16.
pub open spec fn hex_char(d: nat) -> char {
    crate::json::hex_digit(d as u32)
}

/// Bytes in lowercase hexadecimal, two digits each.
pub open spec fn hex_of(bs: Seq<u8>) -> Seq<char>
    decreases bs.len(),
{
    if bs.len() == 0 {
        Seq::empty()
    } else {
        hex_of(bs.drop_last()) + seq![hex_char((bs.last() / 16) as nat), hex_char((bs.last() % 16) as nat)]
    }
}

/// What an observation id is derived from: format, NUL, position in
/// decimal, NUL, text.
pub open spec fn obs_id_input(format: Seq<char>, index: nat, content: Seq<char>) -> Seq<u8> {
    encode_utf8(format) + seq![0u8] + encode_utf8(decimal(index)) + seq![0u8] + encode_utf8(content)
}

/// `obs-` and the first sixteen hex digits of the SHA-256 of the input.
pub open spec fn obs_id(format: Seq<char>, index: nat, content: Seq<char>) -> Seq<char> {
    "obs-"@ + hex_of(sha256(obs_id_input(format, index, content)).take(8))
}

fn push_hex_digit(s: &mut String, d: u8)
    requires
        d < 16,
    ensures
        final(s)@ == old(s)@.push(hex_char(d as nat)),
{
    let c = if d < 10 {
        crate::text::char_from_ascii(48 + d as u32)
    } else {
        crate::text::char_from_ascii(87 + d as u32)
    };
    push_char(s, c);
}

/// A deterministic observation id: `obs-` followed by the first sixteen
/// hex digits of the SHA-256 of format, position and text.
pub fn deterministic_obs_id(source_format: &str, index: usize, content: &str) -> (r: String)
    ensures
        r@ == obs_id(source_format@, index as nat, content@),
{
    let mut input: Vec<u8> = Vec::new();
    let fb = source_format.as_bytes();
    let ib = decimal_string(index as u64);
    let cb = content.as_bytes();
    let mut k: usize = 0;
    while k < fb.len()
        invariant
            k <= fb@.len(),
            fb@ == encode_utf8(source_format@),
            input@ == fb@.take(k as int),
        decreases fb.len() - k,
    {
        input.push(fb[k]);
        proof {
            assert(input@ =~= fb@.take(k + 1));
        }
        k += 1;
    }
    input.push(0u8);
    let ghost head = input@;
    let ibb = ib.as_str().as_bytes();
    let mut k: usize = 0;
    while k < ibb.len()
        invariant
            k <= ibb@.len(),
            input@ == head + ibb@.take(k as int),
        decreases ibb.len() - k,
    {
        input.push(ibb[k]);
        proof {
            assert(input@ =~= head + ibb@.take(k + 1));
        }
        k += 1;
    }
    input.push(0u8);
    let ghost head2 = input@;
    let mut k: usize = 0;
    while k < cb.len()
        invariant
            k <= cb@.len(),
            input@ == head2 + cb@.take(k as int),
        decreases cb.len() - k,
    {
        input.push(cb[k]);
        proof {
            assert(input@ =~= head2 + cb@.take(k + 1));
        }
        k += 1;
    }
    proof {
        assert(fb@.take(fb@.len() as int) =~= fb@);
        assert(ibb@.take(ibb@.len() as int) =~= ibb@);
        assert(cb@.take(cb@.len() as int) =~= cb@);
        assert(input@ =~= obs_id_input(source_format@, index as nat, content@));
    }
    let digest = crate::auth::sha256_digest(input.as_slice());
    let mut r = owned("obs-");
    let ghost d8 = digest@.take(8);
    let mut k: usize = 0;
    proof {
        reveal_strlit("obs-");
        assert(d8.take(0) =~= Seq::<u8>::empty());
    }
    while k < 8
        invariant
            k <= 8,
            digest@.len() == 32,
            d8 == digest@.take(8),
            r@ == "obs-"@ + hex_of(d8.take(k as int)),
        decreases 8 - k,
    {
        let b = digest[k];
        proof {
            assert(d8.take(k + 1).drop_last() =~= d8.take(k as int));
            assert(d8.take(k + 1).last() == b);
        }
        push_hex_digit(&mut r, b / 16);
        push_hex_digit(&mut r, b % 16);
        proof {
            assert(r@ =~= "obs-"@ + hex_of(d8.take(k + 1)));
        }
        k += 1;
    }
    proof {
        assert(d8.take(8) =~= d8);
    }
    r
}

/// What an observation of one message holds: a role, its text, the
/// message's position, the raw entry's JSON text (if any).
pub type ObsSpec = (Seq<char>, Seq<char>, nat, Option<Seq<char>>);

pub open spec fn opt_view(o: Option<String>) -> Option<Seq<char>> {
    match o {
        Some(s) => Some(s@),
        None => None,
    }
}

/// The hook a role is filed under: user prompts, assistant replies (as
/// tool output), anything else as a notification.
pub open spec fn hook_of(role: Seq<char>) -> HookType {
    if role == "user"@ {
        HookType::UserPromptSubmit
    } else if role == "assistant"@ {
        HookType::PostToolUse
    } else {
        HookType::Notification
    }
}

/// `o` is the observation of a message of session `session` in `format`,
/// taken at `now`.
pub open spec fn observes(o: RawObservation, m: ObsSpec, session: Seq<char>, format: Seq<char>, now: i64) -> bool {
    &&& o.id@ == obs_id(format, m.2, m.1)
    &&& o.session_id@ == session
    &&& o.timestamp == now
    &&& o.hook_type == hook_of(m.0)
    &&& opt_view(o.tool_name) == Some(format)
    &&& o.tool_input is None
    &&& o.tool_output is None
    &&& opt_view(o.user_prompt) == (if m.0 == "user"@ {
        Some(m.1)
    } else {
        None
    })
    &&& opt_view(o.assistant_response) == (if m.0 == "assistant"@ {
        Some(m.1)
    } else {
        None
    })
    &&& opt_view(o.raw) == m.3
    &&& o.modality@ == "text"@
    &&& o.image_data is None
    &&& opt_view(o.agent_id) == Some(format)
}

/// `obs` observes the messages `ms`, one each, in order.
pub open spec fn observes_all(obs: Seq<RawObservation>, ms: Seq<ObsSpec>, session: Seq<char>, format: Seq<char>, now: i64) -> bool {
    obs.len() == ms.len() && forall|i: int| 0 <= i < obs.len() ==> observes(#[trigger] obs[i], ms[i], session, format, now)
}

/// Build the observation of one message.
pub fn make_observation(
    role: &str,
    text: &str,
    session_id: &str,
    source_format: &str,
    index: usize,
    raw: Option<String>,
    now: i64,
) -> (o: RawObservation)
    ensures
        observes(o, (role@, text@, index as nat, opt_view(raw)), session_id@, source_format@, now),
{
    let id = deterministic_obs_id(source_format, index, text);
    let hook_type = if str_eq(role, "user") {
        HookType::UserPromptSubmit
    } else if str_eq(role, "assistant") {
        HookType::PostToolUse
    } else {
        HookType::Notification
    };
    let user_prompt = if str_eq(role, "user") {
        Some(owned(text))
    } else {
        None
    };
    let assistant_response = if str_eq(role, "assistant") {
        Some(owned(text))
    } else {
        None
    };
    RawObservation {
        id,
        session_id: owned(session_id),
        timestamp: now,
        hook_type,
        tool_name: Some(owned(source_format)),
        tool_input: None,
        tool_output: None,
        user_prompt,
        assistant_response,
        raw,
        modality: owned("text"),
        image_data: None,
        agent_id: Some(owned(source_format)),
    }
}

/// Messages numbered by position, with no raw entry.
pub open spec fn indexed(ms: Seq<MessageView>) -> Seq<ObsSpec> {
    Seq::new(ms.len(), |i: int| (ms[i].0, ms[i].1, i as nat, None::<Seq<char>>))
}

/// One observation per message, numbered by position.
pub fn messages_to_observations(messages: &Vec<(String, String)>, session_id: &str, source_format: &str, now: i64) -> (r:
    Vec<RawObservation>)
    ensures
        observes_all(r@, indexed(msg_views(messages@)), session_id@, source_format@, now),
{
    let ghost ms = indexed(msg_views(messages@));
    let mut out: Vec<RawObservation> = Vec::new();
    let mut k: usize = 0;
    while k < messages.len()
        invariant
            k <= messages@.len(),
            ms == indexed(msg_views(messages@)),
            out@.len() == k,
            forall|i: int| 0 <= i < k ==> observes(#[trigger] out@[i], ms[i], session_id@, source_format@, now),
        decreases messages.len() - k,
    {
        let o = make_observation(messages[k].0.as_str(), messages[k].1.as_str(), session_id, source_format, k, None, now);
        out.push(o);
        k += 1;
    }
    out
}

// ---------------------------------------------------------------------------
// Reading JSONL entry by entry
// ---------------------------------------------------------------------------

/// The messages of decoded JSONL entries in a known format, each with its
/// position among the entries that hold a message (an empty message takes
/// a position but gives no observation) and the entry's JSON text.
pub open spec fn entry_obs(ls: Seq<Option<Json>>, format: Seq<char>) -> (Seq<ObsSpec>, nat)
    decreases ls.len(),
{
    if ls.len() == 0 {
        (Seq::empty(), 0)
    } else {
        let st = entry_obs(ls.drop_last(), format);
        match ls.last() {
            Some(e) => match entry_message(e, format) {
                Some(m) => if m.1.len() == 0 {
                    (st.0, st.1 + 1)
                } else {
                    (st.0.push((m.0, m.1, st.1, Some(json_text(e)))), st.1 + 1)
                },
                None => st,
            },
            None => st,
        }
    }
}

/// Observations of JSONL entries; `None` when no entry gives one.
pub fn parse_jsonl_to_observations(lines: &[Option<Json>], session_id: &str, source_format: &str, now: i64) -> (r:
    Option<Vec<RawObservation>>)
    ensures
        match r {
            Some(v) => entry_obs(lines@, source_format@).0.len() > 0 && observes_all(
                v@,
                entry_obs(lines@, source_format@).0,
                session_id@,
                source_format@,
                now,
            ),
            None => entry_obs(lines@, source_format@).0.len() == 0,
        },
{
    let mut out: Vec<RawObservation> = Vec::new();
    let mut index: usize = 0;
    let mut k: usize = 0;
    while k < lines.len()
        invariant
            k <= lines@.len(),
            index <= k,
            entry_obs(lines@.take(k as int), source_format@).1 == index,
            observes_all(out@, entry_obs(lines@.take(k as int), source_format@).0, session_id@, source_format@, now),
        decreases lines.len() - k,
    {
        proof {
            assert(lines@.take(k + 1).drop_last() =~= lines@.take(k as int));
            assert(lines@.take(k + 1).last() == lines@[k as int]);
        }
        let ghost st = entry_obs(lines@.take(k as int), source_format@);
        match &lines[k] {
            Some(e) => match crate::pipeline::extract_message_from_entry(e, source_format) {
                Some(m) => {
                    let (role, text) = m;
                    if text.as_str().is_empty() {
                        index += 1;
                    } else {
                        let raw = to_json_text(e);
                        let o = make_observation(role.as_str(), text.as_str(), session_id, source_format, index, Some(raw), now);
                        let ghost before = out@;
                        out.push(o);
                        proof {
                            let ms2 = entry_obs(lines@.take(k + 1), source_format@).0;
                            assert(ms2 == st.0.push((role@, text@, index as nat, Some(json_text(*e)))));
                            assert forall|i: int| 0 <= i < out@.len() implies observes(
                                #[trigger] out@[i],
                                ms2[i],
                                session_id@,
                                source_format@,
                                now,
                            ) by {
                                if i < out@.len() - 1 {
                                    assert(out@[i] == before[i]);
                                }
                            }
                        }
                        index += 1;
                    }
                },
                None => {},
            },
            None => {},
        }
        k += 1;
    }
    proof {
        assert(lines@.take(lines@.len() as int) =~= lines@);
    }
    if out.len() == 0 {
        None
    } else {
        Some(out)
    }
}

// ---------------------------------------------------------------------------
// Messages by format
// ---------------------------------------------------------------------------

pub open spec fn is_jsonl_format(f: Seq<char>) -> bool {
    f == "pi_jsonl"@ || f == "claude_code_jsonl"@ || f == "codex_jsonl"@ || f == "gemini_cli_jsonl"@ || f
        == "soulforge_jsonl"@
}

pub open spec fn is_document_format(f: Seq<char>) -> bool {
    f == "claude_ai_json"@ || f == "chatgpt_json"@ || f == "slack_json"@ || f == "gemini_ai_studio_json"@ || f
        == "continue_dev_json"@
}

/// The non-empty messages of decoded JSONL entries.
pub open spec fn entry_messages(ls: Seq<Option<Json>>, format: Seq<char>) -> Seq<MessageView>
    decreases ls.len(),
{
    if ls.len() == 0 {
        Seq::empty()
    } else {
        let p = entry_messages(ls.drop_last(), format);
        match ls.last() {
            Some(e) => match entry_message(e, format) {
                Some(m) => if m.1.len() > 0 {
                    p.push(m)
                } else {
                    p
                },
                None => p,
            },
            None => p,
        }
    }
}

/// The messages of a whole document in a document format: its compact
/// text (one line, which decodes to the document itself) normalized, and
/// the transcript read back.
pub open spec fn document_messages(d: Json, format: Seq<char>) -> Option<Seq<MessageView>> {
    if is_document_format(format) {
        match normalized_json(json_text(d), seq![Some(d)], Some(d)) {
            Some(t) => transcript_messages(t),
            None => None,
        }
    } else {
        None
    }
}

/// The messages of content in a detected format.
pub open spec fn extracted(format: Seq<char>, ls: Seq<Option<Json>>, whole: Option<Json>) -> Seq<MessageView> {
    if is_jsonl_format(format) {
        entry_messages(ls, format)
    } else {
        match whole {
            Some(d) => match document_messages(d, format) {
                Some(ms) => ms,
                None => Seq::empty(),
            },
            None => Seq::empty(),
        }
    }
}

/// `std::slice::from_ref`: the one-element slice holding the referenced
/// value.
#[verifier::external_body]
fn slice_of_one<T>(x: &T) -> (r: &[T])
    ensures
        r@ == seq![*x],
{
    std::slice::from_ref(x)
}

fn is_jsonl_format_exec(f: &str) -> (r: bool)
    ensures
        r == is_jsonl_format(f@),
{
    str_eq(f, "pi_jsonl") || str_eq(f, "claude_code_jsonl") || str_eq(f, "codex_jsonl") || str_eq(f, "gemini_cli_jsonl")
        || str_eq(f, "soulforge_jsonl")
}

fn is_document_format_exec(f: &str) -> (r: bool)
    ensures
        r == is_document_format(f@),
{
    str_eq(f, "claude_ai_json") || str_eq(f, "chatgpt_json") || str_eq(f, "slack_json") || str_eq(
        f,
        "gemini_ai_studio_json",
    ) || str_eq(f, "continue_dev_json")
}

/// The messages of content in a detected format: entry by entry for the
/// JSONL formats, through the whole document for the document formats,
/// none otherwise.  `lines` are the JSONL lines decoded and `whole` the
/// content decoded as one document.
pub fn extract_messages(source_format: &str, lines: &[Option<Json>], whole: &Option<Json>) -> (r: Vec<(String, String)>)
    ensures
        msg_views(r@) == extracted(source_format@, lines@, *whole),
{
    let mut ms: Vec<(String, String)> = Vec::new();
    if is_jsonl_format_exec(source_format) {
        let mut k: usize = 0;
        proof {
            assert(lines@.take(0) =~= Seq::<Option<Json>>::empty());
            assert(msg_views(ms@) =~= Seq::<MessageView>::empty());
        }
        while k < lines.len()
            invariant
                k <= lines@.len(),
                msg_views(ms@) == entry_messages(lines@.take(k as int), source_format@),
            decreases lines.len() - k,
        {
            proof {
                assert(lines@.take(k + 1).drop_last() =~= lines@.take(k as int));
                assert(lines@.take(k + 1).last() == lines@[k as int]);
            }
            match &lines[k] {
                Some(e) => match crate::pipeline::extract_message_from_entry(e, source_format) {
                    Some(m) => {
                        let (role, text) = m;
                        if !text.as_str().is_empty() {
                            crate::normalize::push_msg(&mut ms, role.as_str(), text);
                        }
                    },
                    None => {},
                },
                None => {},
            }
            k += 1;
        }
        proof {
            assert(lines@.take(lines@.len() as int) =~= lines@);
        }
        return ms;
    }
    proof {
        assert(msg_views(ms@) =~= Seq::<MessageView>::empty());
    }
    let d = match whole {
        Some(d) => d,
        None => {
            return ms;
        },
    };
    if !is_document_format_exec(source_format) {
        return ms;
    }
    let text = to_json_text(d);
    let t = match crate::pipeline::try_normalize_json(text.as_str(), slice_of_one(whole), whole) {
        Some(t) => t,
        None => {
            return ms;
        },
    };
    match crate::normalize::parse_transcript_to_messages(t.as_str()) {
        Some(v) => v,
        None => ms,
    }
}

// ---------------------------------------------------------------------------
// A file read into observations
// ---------------------------------------------------------------------------

/// The first decoded line, if there is one.
pub open spec fn first_of(split: Seq<Option<Json>>) -> Option<Json> {
    if split.len() > 0 {
        split[0]
    } else {
        None
    }
}

/// The format observations are filed under.
pub open spec fn obs_format(content: Seq<char>, split: Seq<Option<Json>>, whole: Option<Json>) -> Seq<char> {
    crate::normalize::detected_format(content, split, whole, first_of(split))
}

/// Content read as a document: a `json` extension or trimmed content that
/// opens an object or array.
pub open spec fn document_like(content: Seq<char>, ext: Seq<char>) -> bool {
    let t = trim(content);
    eq_ignore_ascii_case(ext, "json"@) || (t.len() > 0 && (t[0] == '{' || t[0] == '['))
}

/// What a file's observations hold.  Blank content has none; a file over
/// the cap is an error.  JSONL files (and content over 1 MiB) are read
/// entry by entry when that gives any; document-like content is read
/// through its normalized transcript when that reads back; otherwise the
/// messages of the detected format are taken.
pub open spec fn observed(
    content: Seq<char>,
    ext: Seq<char>,
    file_len: Option<u64>,
    ls: Seq<Option<Json>>,
    split: Seq<Option<Json>>,
    whole: Option<Json>,
) -> Result<Seq<ObsSpec>, u64> {
    let f = obs_format(content, split, whole);
    if trim(content).len() == 0 {
        Ok(Seq::empty())
    } else if file_len is Some && file_len->0 > MAX_FILE_SIZE_BYTES {
        Err(file_len->0)
    } else if (eq_ignore_ascii_case(ext, "jsonl"@) || byte_len(content) > 1048576) && entry_obs(ls, f).0.len() > 0 {
        Ok(entry_obs(ls, f).0)
    } else if document_like(content, ext) && normalized_json(content, ls, whole) is Some && transcript_messages(
        normalized_json(content, ls, whole)->0,
    ) is Some {
        Ok(indexed(transcript_messages(normalized_json(content, ls, whole)->0)->0))
    } else {
        Ok(indexed(extracted(f, ls, whole)))
    }
}

/// Read a file into observations of session `session_id`, taken at `now`,
/// given its JSONL lines decoded, its lines split on `'\n'` decoded and its
/// content decoded as one document; see [`normalize_to_observations`].
pub fn normalize_to_observations_decoded(
    content: &str,
    ext: &str,
    file_len: Option<u64>,
    session_id: &str,
    lines: &[Option<Json>],
    split_lines: &[Option<Json>],
    whole: &Option<Json>,
    now: i64,
) -> (r: Result<Vec<RawObservation>, crate::pipeline::NormalizeError>)
    ensures
        match (r, observed(content@, ext@, file_len, lines@, split_lines@, *whole)) {
            (Ok(v), Ok(ms)) => observes_all(v@, ms, session_id@, obs_format(content@, split_lines@, *whole), now),
            (Err(crate::pipeline::NormalizeError::TooLarge { size, cap }), Err(n)) => size == n && cap
                == MAX_FILE_SIZE_BYTES,
            _ => false,
        },
{
    let t = trim_str(content);
    if t.as_str().is_empty() {
        return Ok(Vec::new());
    }
    if let Some(n) = file_len {
        if n > MAX_FILE_SIZE_BYTES {
            return Err(crate::pipeline::NormalizeError::TooLarge { size: n, cap: MAX_FILE_SIZE_BYTES });
        }
    }
    let none: Option<Json> = None;
    let first: &Option<Json> = if split_lines.len() > 0 {
        &split_lines[0]
    } else {
        &none
    };
    let f = crate::normalize::detect_format_decoded(content, split_lines, whole, first);
    if eq_ignore_ascii_case_exec(ext, "jsonl") || str_len(content) > 1048576 {
        if let Some(obs) = parse_jsonl_to_observations(lines, session_id, f.as_str(), now) {
            return Ok(obs);
        }
    }
    let tc = chars_of(t.as_str());
    let doc = eq_ignore_ascii_case_exec(ext, "json") || (tc.len() > 0 && (tc[0] == '{' || tc[0] == '['));
    if doc {
        if let Some(tr) = crate::pipeline::try_normalize_json(content, lines, whole) {
            if let Some(ms) = crate::normalize::parse_transcript_to_messages(tr.as_str()) {
                return Ok(messages_to_observations(&ms, session_id, f.as_str(), now));
            }
        }
    }
    let ms = extract_messages(f.as_str(), lines, whole);
    Ok(messages_to_observations(&ms, session_id, f.as_str(), now))
}

/// Read a file into observations of session `session_id`, taken at `now`.
/// `ext` is the file's extension and `file_len` its size on disk (when
/// known); the content is decoded with serde_json: its JSONL lines, its
/// lines split on `'\n'`, and the whole as one document.
pub fn normalize_to_observations(
    content: &str,
    ext: &str,
    file_len: Option<u64>,
    session_id: &str,
    now: i64,
) -> (r: Result<Vec<RawObservation>, crate::pipeline::NormalizeError>)
    ensures
        ({
            let ls = crate::json::decoded_all(crate::normalize::jsonl_lines(content@));
            let split = crate::json::decoded_all(crate::text::split_on(content@, '\n'));
            let whole = crate::json::json_decoded(content@);
            match (r, observed(content@, ext@, file_len, ls, split, whole)) {
                (Ok(v), Ok(ms)) => observes_all(v@, ms, session_id@, obs_format(content@, split, whole), now),
                (Err(crate::pipeline::NormalizeError::TooLarge { size, cap }), Err(n)) => size == n && cap
                    == MAX_FILE_SIZE_BYTES,
                _ => false,
            }
        }),
{
    let ls = crate::normalize::split_jsonl_lines(content);
    let lines = crate::json::decode_strings(&ls);
    let split = crate::normalize::decoded_split_lines(content);
    let whole = crate::json::decode_json(content);
    normalize_to_observations_decoded(content, ext, file_len, session_id, lines.as_slice(), split.as_slice(), &whole, now)
}

} // verus!
