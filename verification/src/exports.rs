//! Whole-document chat exports: web-chat, ChatGPT, Slack, Gemini AI
//! Studio and Continue.dev.  Each parser takes the decoded document and
//! gives the transcript when it recognises at least two messages.
use vstd::prelude::*;
use crate::json::{
    member_index, as_object, json_as_object,
    as_array, as_str, get, get_either, has_key, json_as_array, json_as_str, json_get, json_get_either, json_has_key,
    opt_deref, Json,
};
use crate::normalize::{
    content_text, extract_content_to_string, msg_views, object_texts, object_texts_exec, push_msg, transcript_if_two,
    transcript_if_two_exec, MessageView,
};
use crate::obsidian_export::join_strings;
use crate::text::{join, owned, str_eq, str_views, trim, trim_str};

verus! {

broadcast use vstd::string::group_string_axioms;

// ---------------------------------------------------------------------------
// web-chat
// ---------------------------------------------------------------------------

/// The message list of a web-chat export: the `messages` (or
/// `chat_messages`) member of an object, else the document itself.
pub open spec fn claude_ai_list(data: Json) -> Json {
    if data is Object {
        match get_either(data, "messages"@, "chat_messages"@) {
            Some(v) => v,
            None => data,
        }
    } else {
        data
    }
}

/// What one web-chat item gives: `None` rejects the export (an item that
/// is not an object, or lacks a string `role` or a `content`); otherwise
/// the message, if its text is not empty and its role is known.
pub open spec fn claude_ai_item(item: Json) -> Option<Option<MessageView>> {
    if !(item is Object) {
        None
    } else {
        match as_str(get(item, "role"@)) {
            None => None,
            Some(role) => match get(item, "content"@) {
                None => None,
                Some(c) => {
                    let text = content_text(c);
                    if text.len() == 0 {
                        Some(None)
                    } else if role == "user"@ || role == "human"@ {
                        Some(Some(("user"@, text)))
                    } else if role == "assistant"@ || role == "ai"@ {
                        Some(Some(("assistant"@, text)))
                    } else {
                        Some(None)
                    }
                },
            },
        }
    }
}

pub open spec fn claude_ai_messages(items: Seq<Json>) -> Option<Seq<MessageView>>
    decreases items.len(),
{
    if items.len() == 0 {
        Some(Seq::empty())
    } else {
        match claude_ai_messages(items.drop_last()) {
            None => None,
            Some(ms) => match claude_ai_item(items.last()) {
                None => None,
                Some(None) => Some(ms),
                Some(Some(m)) => Some(ms.push(m)),
            },
        }
    }
}

pub open spec fn claude_ai_spec(data: Json) -> Option<Seq<char>> {
    match as_array(Some(claude_ai_list(data))) {
        None => None,
        Some(items) => match claude_ai_messages(items) {
            None => None,
            Some(ms) => transcript_if_two(ms),
        },
    }
}

fn claude_ai_item_exec(item: &Json) -> (r: Option<Option<(String, String)>>)
    ensures
        match r {
            None => claude_ai_item(*item) is None,
            Some(None) => claude_ai_item(*item) == Some(None::<MessageView>),
            Some(Some(m)) => claude_ai_item(*item) == Some(Some((m.0@, m.1@))),
        },
{
    match item {
        Json::Object(_) => {},
        _ => {
            return None;
        },
    }
    let role = match json_as_str(json_get(item, "role")) {
        None => {
            return None;
        },
        Some(r) => r,
    };
    let c = match json_get(item, "content") {
        None => {
            return None;
        },
        Some(c) => c,
    };
    let text = extract_content_to_string(c);
    if text.as_str().is_empty() {
        Some(None)
    } else if str_eq(role, "user") || str_eq(role, "human") {
        Some(Some((owned("user"), text)))
    } else if str_eq(role, "assistant") || str_eq(role, "ai") {
        Some(Some((owned("assistant"), text)))
    } else {
        Some(None)
    }
}

proof fn lemma_claude_ai_abort_sticks(items: Seq<Json>, i: int)
    requires
        0 <= i < items.len(),
        claude_ai_messages(items.take(i + 1)) is None,
    ensures
        claude_ai_messages(items) is None,
    decreases items.len() - i,
{
    if i + 1 < items.len() {
        assert(items.take(i + 2).drop_last() =~= items.take(i + 1));
        lemma_claude_ai_abort_sticks(items, i + 1);
    } else {
        assert(items.take(i + 1) =~= items);
    }
}

/// Parse a web-chat export: a list of `{role, content}` items, bare or
/// under `messages` / `chat_messages`.
pub fn try_claude_ai_json(data: &Json) -> (r: Option<String>)
    ensures
        match r {
            Some(t) => claude_ai_spec(*data) == Some(t@),
            None => claude_ai_spec(*data) is None,
        },
{
    let list: &Json = match data {
        Json::Object(_) => match json_get_either(data, "messages", "chat_messages") {
            Some(v) => v,
            None => data,
        },
        _ => data,
    };
    assert(*list == claude_ai_list(*data));
    let items = match list {
        Json::Array(v) => v,
        _ => {
            return None;
        },
    };
    let mut ms: Vec<(String, String)> = Vec::new();
    let mut i: usize = 0;
    while i < items.len()
        invariant
            i <= items@.len(),
            as_array(Some(claude_ai_list(*data))) == Some(items@),
            claude_ai_messages(items@.take(i as int)) == Some(msg_views(ms@)),
        decreases items.len() - i,
    {
        proof {
            assert(items@.take(i + 1).drop_last() =~= items@.take(i as int));
            assert(items@.take(i + 1).last() == items@[i as int]);
        }
        match claude_ai_item_exec(&items[i]) {
            None => {
                proof {
                    lemma_claude_ai_abort_sticks(items@, i as int);
                }
                return None;
            },
            Some(None) => {},
            Some(Some(m)) => {
                let (role, text) = m;
                push_msg(&mut ms, role.as_str(), text);
            },
        }
        i += 1;
    }
    proof {
        assert(items@.take(items@.len() as int) =~= items@);
    }
    transcript_if_two_exec(&ms)
}

// ---------------------------------------------------------------------------
// Gemini AI Studio
// ---------------------------------------------------------------------------

/// The text of an AI Studio or Continue.dev item that carries an array of
/// `parts`: the parts' texts joined by newlines.  Without `parts` it is
/// the text of `content`; `None` when there is neither.
pub open spec fn parts_or_content(item: Json, parts: Seq<Seq<char>>) -> Option<Seq<char>> {
    match as_array(get(item, "parts"@)) {
        Some(_) => Some(join(parts, "\n"@)),
        None => match get(item, "content"@) {
            Some(c) => Some(content_text(c)),
            None => None,
        },
    }
}

/// The `text` of each object part.
pub open spec fn studio_parts(item: Json) -> Seq<Seq<char>> {
    match as_array(get(item, "parts"@)) {
        Some(ps) => object_texts(ps, "text"@),
        None => Seq::empty(),
    }
}

/// What one AI Studio item gives: `None` rejects the export (an object
/// with neither `parts` nor `content`); non-objects, empty texts, `system`
/// and unknown roles give nothing; `model`, `assistant` and `ai` speak as
/// the assistant, `user` and `human` as the user.
pub open spec fn studio_item(item: Json) -> Option<Option<MessageView>> {
    if !(item is Object) {
        Some(None)
    } else {
        let role = match as_str(get(item, "role"@)) {
            Some(r) => r,
            None => Seq::empty(),
        };
        match parts_or_content(item, studio_parts(item)) {
            None => None,
            Some(text) => if text.len() == 0 {
                Some(None)
            } else if role == "user"@ || role == "human"@ {
                Some(Some(("user"@, text)))
            } else if role == "model"@ || role == "assistant"@ || role == "ai"@ {
                Some(Some(("assistant"@, text)))
            } else {
                Some(None)
            },
        }
    }
}

pub open spec fn studio_messages(items: Seq<Json>) -> Option<Seq<MessageView>>
    decreases items.len(),
{
    if items.len() == 0 {
        Some(Seq::empty())
    } else {
        match studio_messages(items.drop_last()) {
            None => None,
            Some(ms) => match studio_item(items.last()) {
                None => None,
                Some(None) => Some(ms),
                Some(Some(m)) => Some(ms.push(m)),
            },
        }
    }
}

/// The message list of a conversation: the first of `messages`,
/// `contents`, `conversation`, `turns` that is present, if it is an array.
pub open spec fn studio_list(conv: Json) -> Option<Seq<Json>> {
    as_array(
        match get_either(conv, "messages"@, "contents"@) {
            Some(v) => Some(v),
            None => get_either(conv, "conversation"@, "turns"@),
        },
    )
}

/// What one conversation gives: `None` rejects the export,
/// `Some(None)` passes on to the next conversation, `Some(Some(t))` is the
/// transcript of a conversation with at least two messages.
pub open spec fn studio_conv(conv: Json) -> Option<Option<Seq<char>>> {
    match studio_list(conv) {
        None => Some(None),
        Some(items) => match studio_messages(items) {
            None => None,
            Some(ms) => Some(transcript_if_two(ms)),
        },
    }
}

pub open spec fn studio_convs(convs: Seq<Json>) -> Option<Seq<char>>
    decreases convs.len(),
{
    if convs.len() == 0 {
        None
    } else {
        match studio_conv(convs[0]) {
            None => None,
            Some(Some(t)) => Some(t),
            Some(None) => studio_convs(convs.skip(1)),
        }
    }
}

/// An AI Studio export: one conversation, or an array of them; the first
/// conversation with two messages is taken.
pub open spec fn studio_spec(data: Json) -> Option<Seq<char>> {
    match data {
        Json::Array(v) => studio_convs(v@),
        _ => studio_convs(seq![data]),
    }
}

fn parts_texts_exec(item: &Json) -> (r: Option<String>)
    ensures
        match r {
            Some(t) => as_array(get(*item, "parts"@)) is Some && t@ == join(studio_parts(*item), "\n"@),
            None => as_array(get(*item, "parts"@)) is None,
        },
{
    match json_as_array(json_get(item, "parts")) {
        Some(ps) => {
            let buf = object_texts_exec(ps, "text");
            Some(join_strings(&buf, "\n"))
        },
        None => None,
    }
}

fn studio_item_exec(item: &Json) -> (r: Option<Option<(String, String)>>)
    ensures
        match r {
            None => studio_item(*item) is None,
            Some(None) => studio_item(*item) == Some(None::<MessageView>),
            Some(Some(m)) => studio_item(*item) == Some(Some((m.0@, m.1@))),
        },
{
    match item {
        Json::Object(_) => {},
        _ => {
            return Some(None);
        },
    }
    let role: &str = match json_as_str(json_get(item, "role")) {
        Some(r) => r,
        None => "",
    };
    proof {
        reveal_strlit("");
        assert(""@ =~= Seq::<char>::empty());
    }
    let text = match parts_texts_exec(item) {
        Some(t) => t,
        None => match json_get(item, "content") {
            Some(c) => extract_content_to_string(c),
            None => {
                return None;
            },
        },
    };
    if text.as_str().is_empty() {
        Some(None)
    } else if str_eq(role, "user") || str_eq(role, "human") {
        Some(Some((owned("user"), text)))
    } else if str_eq(role, "model") || str_eq(role, "assistant") || str_eq(role, "ai") {
        Some(Some((owned("assistant"), text)))
    } else {
        Some(None)
    }
}

proof fn lemma_studio_abort_sticks(items: Seq<Json>, i: int)
    requires
        0 <= i < items.len(),
        studio_messages(items.take(i + 1)) is None,
    ensures
        studio_messages(items) is None,
    decreases items.len() - i,
{
    if i + 1 < items.len() {
        assert(items.take(i + 2).drop_last() =~= items.take(i + 1));
        lemma_studio_abort_sticks(items, i + 1);
    } else {
        assert(items.take(i + 1) =~= items);
    }
}

fn studio_conv_exec(conv: &Json) -> (r: Option<Option<String>>)
    ensures
        match r {
            None => studio_conv(*conv) is None,
            Some(None) => studio_conv(*conv) == Some(None::<Seq<char>>),
            Some(Some(t)) => studio_conv(*conv) == Some(Some(t@)),
        },
{
    let first = match json_get_either(conv, "messages", "contents") {
        Some(v) => Some(v),
        None => json_get_either(conv, "conversation", "turns"),
    };
    let items = match json_as_array(first) {
        Some(v) => v,
        None => {
            return Some(None);
        },
    };
    assert(studio_list(*conv) == Some(items@));
    let mut ms: Vec<(String, String)> = Vec::new();
    let mut i: usize = 0;
    while i < items.len()
        invariant
            i <= items@.len(),
            studio_list(*conv) == Some(items@),
            studio_messages(items@.take(i as int)) == Some(msg_views(ms@)),
        decreases items.len() - i,
    {
        proof {
            assert(items@.take(i + 1).drop_last() =~= items@.take(i as int));
            assert(items@.take(i + 1).last() == items@[i as int]);
        }
        match studio_item_exec(&items[i]) {
            None => {
                proof {
                    lemma_studio_abort_sticks(items@, i as int);
                }
                return None;
            },
            Some(None) => {},
            Some(Some(m)) => {
                let (role, text) = m;
                push_msg(&mut ms, role.as_str(), text);
            },
        }
        i += 1;
    }
    proof {
        assert(items@.take(items@.len() as int) =~= items@);
    }
    Some(transcript_if_two_exec(&ms))
}

/// Parse a Gemini AI Studio export.
pub fn try_gemini_ai_studio_json(data: &Json) -> (r: Option<String>)
    ensures
        match r {
            Some(t) => studio_spec(*data) == Some(t@),
            None => studio_spec(*data) is None,
        },
{
    match data {
        Json::Array(convs) => {
            let mut c: usize = 0;
            proof {
                assert(convs@.skip(0) =~= convs@);
            }
            while c < convs.len()
                invariant
                    c <= convs@.len(),
                    studio_spec(*data) == studio_convs(convs@.skip(c as int)),
                decreases convs.len() - c,
            {
                let ghost rest = convs@.skip(c as int);
                proof {
                    assert(rest[0] == convs@[c as int]);
                    assert(rest.skip(1) =~= convs@.skip(c + 1));
                }
                match studio_conv_exec(&convs[c]) {
                    None => {
                        return None;
                    },
                    Some(Some(t)) => {
                        return Some(t);
                    },
                    Some(None) => {},
                }
                c += 1;
            }
            proof {
                assert(convs@.skip(c as int) =~= Seq::<Json>::empty());
            }
            None
        },
        _ => {
            proof {
                let one = seq![*data];
                assert(one.skip(1) =~= Seq::<Json>::empty());
                assert(studio_convs(one.skip(1)) is None);
                assert(one[0] == *data);
                assert(studio_spec(*data) == studio_convs(one));
            }
            match studio_conv_exec(data) {
                None => None,
                Some(t) => t,
            }
        },
    }
}

// ---------------------------------------------------------------------------
// Continue.dev
// ---------------------------------------------------------------------------

/// The message list of a Continue.dev session: the first of `history`,
/// `messages`, `chatHistory`, `conversation` that is present; else the
/// `messages` (or `history`) of a nested `chat` object.
pub open spec fn continue_list(data: Json) -> Option<Json> {
    match get_either(data, "history"@, "messages"@) {
        Some(v) => Some(v),
        None => match get_either(data, "chatHistory"@, "conversation"@) {
            Some(v) => Some(v),
            None => match get(data, "chat"@) {
                Some(n) => if n is Object {
                    get_either(n, "messages"@, "history"@)
                } else {
                    None
                },
                None => None,
            },
        },
    }
}

/// An item marks Continue.dev: an object whose role is `user`,
/// `assistant` or `system` and that has `content` or `parts`.
pub open spec fn continue_marker(item: Json) -> bool {
    item is Object && {
        let role = as_str(get(item, "role"@));
        (role == Some("user"@) || role == Some("assistant"@) || role == Some("system"@)) && (has_key(
            item,
            "content"@,
        ) || has_key(item, "parts"@))
    }
}

pub open spec fn any_continue_marker(items: Seq<Json>) -> bool
    decreases items.len(),
{
    items.len() > 0 && (any_continue_marker(items.drop_last()) || continue_marker(items.last()))
}

/// What a Continue.dev part contributes: a string itself, or the `text`
/// of an object.
pub open spec fn continue_part(p: Json) -> Option<Seq<char>> {
    match p {
        Json::Str(s) => Some(s@),
        Json::Object(_) => as_str(get(p, "text"@)),
        _ => None,
    }
}

pub open spec fn continue_part_texts(ps: Seq<Json>) -> Seq<Seq<char>>
    decreases ps.len(),
{
    if ps.len() == 0 {
        Seq::empty()
    } else {
        match continue_part(ps.last()) {
            Some(t) => continue_part_texts(ps.drop_last()).push(t),
            None => continue_part_texts(ps.drop_last()),
        }
    }
}

pub open spec fn continue_parts(item: Json) -> Seq<Seq<char>> {
    match as_array(get(item, "parts"@)) {
        Some(ps) => continue_part_texts(ps),
        None => Seq::empty(),
    }
}

/// What one Continue.dev item gives: `None` rejects the export (an object
/// with neither `parts` nor `content`).
pub open spec fn continue_item(item: Json) -> Option<Option<MessageView>> {
    if !(item is Object) {
        Some(None)
    } else {
        let role = match as_str(get(item, "role"@)) {
            Some(r) => r,
            None => Seq::empty(),
        };
        match parts_or_content(item, continue_parts(item)) {
            None => None,
            Some(text) => if text.len() == 0 {
                Some(None)
            } else if role == "user"@ || role == "human"@ {
                Some(Some(("user"@, text)))
            } else if role == "assistant"@ || role == "ai"@ {
                Some(Some(("assistant"@, text)))
            } else {
                Some(None)
            },
        }
    }
}

pub open spec fn continue_messages(items: Seq<Json>) -> Option<Seq<MessageView>>
    decreases items.len(),
{
    if items.len() == 0 {
        Some(Seq::empty())
    } else {
        match continue_messages(items.drop_last()) {
            None => None,
            Some(ms) => match continue_item(items.last()) {
                None => None,
                Some(None) => Some(ms),
                Some(Some(m)) => Some(ms.push(m)),
            },
        }
    }
}

/// A Continue.dev session: an object whose message list is an array with
/// a marker item.
pub open spec fn continue_spec(data: Json) -> Option<Seq<char>> {
    if !(data is Object) {
        None
    } else {
        match as_array(continue_list(data)) {
            None => None,
            Some(items) => if !any_continue_marker(items) {
                None
            } else {
                match continue_messages(items) {
                    None => None,
                    Some(ms) => transcript_if_two(ms),
                }
            },
        }
    }
}

fn continue_list_exec<'a>(data: &'a Json) -> (r: Option<&'a Json>)
    ensures
        opt_deref(r) == continue_list(*data),
{
    match json_get_either(data, "history", "messages") {
        Some(v) => Some(v),
        None => match json_get_either(data, "chatHistory", "conversation") {
            Some(v) => Some(v),
            None => match json_get(data, "chat") {
                Some(n) => match n {
                    Json::Object(_) => json_get_either(n, "messages", "history"),
                    _ => None,
                },
                None => None,
            },
        },
    }
}

fn continue_marker_exec(item: &Json) -> (r: bool)
    ensures
        r == continue_marker(*item),
{
    match item {
        Json::Object(_) => {
            let is_role = match json_as_str(json_get(item, "role")) {
                Some(r) => str_eq(r, "user") || str_eq(r, "assistant") || str_eq(r, "system"),
                None => false,
            };
            is_role && (json_has_key(item, "content") || json_has_key(item, "parts"))
        },
        _ => false,
    }
}

fn continue_parts_exec(item: &Json) -> (r: Option<String>)
    ensures
        match r {
            Some(t) => as_array(get(*item, "parts"@)) is Some && t@ == join(continue_parts(*item), "\n"@),
            None => as_array(get(*item, "parts"@)) is None,
        },
{
    let ps = match json_as_array(json_get(item, "parts")) {
        Some(ps) => ps,
        None => {
            return None;
        },
    };
    let mut buf: Vec<String> = Vec::new();
    let mut k: usize = 0;
    while k < ps.len()
        invariant
            k <= ps@.len(),
            str_views(buf@) == continue_part_texts(ps@.take(k as int)),
        decreases ps.len() - k,
    {
        proof {
            assert(ps@.take(k + 1).drop_last() =~= ps@.take(k as int));
            assert(ps@.take(k + 1).last() == ps@[k as int]);
        }
        let ghost before = buf@;
        let p = &ps[k];
        match p {
            Json::Str(s) => {
                buf.push(owned(s.as_str()));
                proof {
                    assert(str_views(buf@) =~= str_views(before).push(s@));
                }
            },
            Json::Object(_) => match json_as_str(json_get(p, "text")) {
                Some(t) => {
                    buf.push(owned(t));
                    proof {
                        assert(str_views(buf@) =~= str_views(before).push(t@));
                    }
                },
                None => {},
            },
            _ => {},
        }
        k += 1;
    }
    proof {
        assert(ps@.take(ps@.len() as int) =~= ps@);
    }
    Some(join_strings(&buf, "\n"))
}

fn continue_item_exec(item: &Json) -> (r: Option<Option<(String, String)>>)
    ensures
        match r {
            None => continue_item(*item) is None,
            Some(None) => continue_item(*item) == Some(None::<MessageView>),
            Some(Some(m)) => continue_item(*item) == Some(Some((m.0@, m.1@))),
        },
{
    match item {
        Json::Object(_) => {},
        _ => {
            return Some(None);
        },
    }
    let role: &str = match json_as_str(json_get(item, "role")) {
        Some(r) => r,
        None => "",
    };
    proof {
        reveal_strlit("");
        assert(""@ =~= Seq::<char>::empty());
    }
    let text = match continue_parts_exec(item) {
        Some(t) => t,
        None => match json_get(item, "content") {
            Some(c) => extract_content_to_string(c),
            None => {
                return None;
            },
        },
    };
    if text.as_str().is_empty() {
        Some(None)
    } else if str_eq(role, "user") || str_eq(role, "human") {
        Some(Some((owned("user"), text)))
    } else if str_eq(role, "assistant") || str_eq(role, "ai") {
        Some(Some((owned("assistant"), text)))
    } else {
        Some(None)
    }
}

proof fn lemma_continue_abort_sticks(items: Seq<Json>, i: int)
    requires
        0 <= i < items.len(),
        continue_messages(items.take(i + 1)) is None,
    ensures
        continue_messages(items) is None,
    decreases items.len() - i,
{
    if i + 1 < items.len() {
        assert(items.take(i + 2).drop_last() =~= items.take(i + 1));
        lemma_continue_abort_sticks(items, i + 1);
    } else {
        assert(items.take(i + 1) =~= items);
    }
}

/// Parse a Continue.dev session export.
pub fn try_continue_dev_json(data: &Json) -> (r: Option<String>)
    ensures
        match r {
            Some(t) => continue_spec(*data) == Some(t@),
            None => continue_spec(*data) is None,
        },
{
    match data {
        Json::Object(_) => {},
        _ => {
            return None;
        },
    }
    let items = match json_as_array(continue_list_exec(data)) {
        Some(v) => v,
        None => {
            return None;
        },
    };
    let mut found = false;
    let mut k: usize = 0;
    while k < items.len()
        invariant
            k <= items@.len(),
            found == any_continue_marker(items@.take(k as int)),
        decreases items.len() - k,
    {
        proof {
            assert(items@.take(k + 1).drop_last() =~= items@.take(k as int));
            assert(items@.take(k + 1).last() == items@[k as int]);
        }
        found = found || continue_marker_exec(&items[k]);
        k += 1;
    }
    proof {
        assert(items@.take(items@.len() as int) =~= items@);
    }
    if !found {
        return None;
    }
    let mut ms: Vec<(String, String)> = Vec::new();
    let mut i: usize = 0;
    while i < items.len()
        invariant
            i <= items@.len(),
            data is Object,
            as_array(continue_list(*data)) == Some(items@),
            any_continue_marker(items@),
            continue_messages(items@.take(i as int)) == Some(msg_views(ms@)),
        decreases items.len() - i,
    {
        proof {
            assert(items@.take(i + 1).drop_last() =~= items@.take(i as int));
            assert(items@.take(i + 1).last() == items@[i as int]);
        }
        match continue_item_exec(&items[i]) {
            None => {
                proof {
                    lemma_continue_abort_sticks(items@, i as int);
                }
                return None;
            },
            Some(None) => {},
            Some(Some(m)) => {
                let (role, text) = m;
                push_msg(&mut ms, role.as_str(), text);
            },
        }
        i += 1;
    }
    proof {
        assert(items@.take(items@.len() as int) =~= items@);
    }
    transcript_if_two_exec(&ms)
}

// ---------------------------------------------------------------------------
// Slack
// ---------------------------------------------------------------------------

/// The note appended to a Slack transcript: its roles are guessed from
/// the order of speakers.
pub open spec fn slack_footer() -> Seq<char> {
    "\n[source: slack-export | multi-party chat — speaker roles are positional, not verified]"@
}

/// The role a speaker was first given.
pub open spec fn seen_role(seen: Seq<(Seq<char>, Seq<char>)>, user: Seq<char>) -> Option<Seq<char>>
    decreases seen.len(),
{
    if seen.len() == 0 {
        None
    } else {
        match seen_role(seen.drop_last(), user) {
            Some(r) => Some(r),
            None => if seen.last().0 == user {
                Some(seen.last().1)
            } else {
                None
            },
        }
    }
}

/// The role of a speaker: the one it was given; a new speaker is the user
/// when it is the first or follows the assistant, and the assistant when
/// it follows the user.
pub open spec fn slack_role(seen: Seq<(Seq<char>, Seq<char>)>, last_user: bool, user: Seq<char>) -> Seq<char> {
    match seen_role(seen, user) {
        Some(r) => r,
        None => if seen.len() == 0 {
            "user"@
        } else if last_user {
            "assistant"@
        } else {
            "user"@
        },
    }
}

/// Reading a Slack export: the speakers seen with their roles, whether the
/// last message was the user's, and the messages.
pub type SlackState = (Seq<(Seq<char>, Seq<char>)>, bool, Seq<MessageView>);

/// One Slack item: `None` rejects the export (a non-object, or an object
/// without `type`, or a `message` without `text`).  Items of another type,
/// and messages with an empty text or no speaker, are passed over.
pub open spec fn slack_item(st: SlackState, item: Json) -> Option<SlackState> {
    if !(item is Object) {
        None
    } else {
        match get(item, "type"@) {
            None => None,
            Some(t) => if as_str(Some(t)) != Some("message"@) {
                Some(st)
            } else {
                match get(item, "text"@) {
                    None => None,
                    Some(tv) => {
                        let text = trim(
                            match as_str(Some(tv)) {
                                Some(x) => x,
                                None => Seq::empty(),
                            },
                        );
                        let user = match as_str(get_either(item, "user"@, "username"@)) {
                            Some(u) => u,
                            None => Seq::empty(),
                        };
                        if text.len() == 0 || user.len() == 0 {
                            Some(st)
                        } else {
                            let role = slack_role(st.0, st.1, user);
                            let seen = if seen_role(st.0, user) is Some {
                                st.0
                            } else {
                                st.0.push((user, role))
                            };
                            Some((seen, role == "user"@, st.2.push((role, text))))
                        }
                    },
                }
            },
        }
    }
}

pub open spec fn slack_fold(items: Seq<Json>) -> Option<SlackState>
    decreases items.len(),
{
    if items.len() == 0 {
        Some((Seq::empty(), false, Seq::empty()))
    } else {
        match slack_fold(items.drop_last()) {
            None => None,
            Some(st) => slack_item(st, items.last()),
        }
    }
}

/// A Slack export: an array of items; the transcript carries the note on
/// positional roles.
pub open spec fn slack_spec(data: Json) -> Option<Seq<char>> {
    match data {
        Json::Array(v) => match slack_fold(v@) {
            None => None,
            Some(st) => if st.2.len() >= 2 {
                Some(crate::normalize::transcript_spec(st.2) + slack_footer())
            } else {
                None
            },
        },
        _ => None,
    }
}

pub open spec fn pair_views(v: Seq<(String, String)>) -> Seq<(Seq<char>, Seq<char>)> {
    v.map_values(|p: (String, String)| (p.0@, p.1@))
}

proof fn lemma_seen_role_prefix(seen: Seq<(Seq<char>, Seq<char>)>, user: Seq<char>, k: int)
    requires
        0 <= k <= seen.len(),
        seen_role(seen.take(k), user) is Some,
    ensures
        seen_role(seen, user) == seen_role(seen.take(k), user),
    decreases seen.len() - k,
{
    if k < seen.len() {
        assert(seen.take(k + 1).drop_last() =~= seen.take(k));
        lemma_seen_role_prefix(seen, user, k + 1);
    } else {
        assert(seen.take(k) =~= seen);
    }
}

fn seen_lookup(seen: &Vec<(String, String)>, user: &str) -> (r: Option<String>)
    ensures
        match r {
            Some(role) => seen_role(pair_views(seen@), user@) == Some(role@),
            None => seen_role(pair_views(seen@), user@) is None,
        },
{
    let ghost pv = pair_views(seen@);
    let mut k: usize = 0;
    while k < seen.len()
        invariant
            k <= seen@.len(),
            pv == pair_views(seen@),
            seen_role(pv.take(k as int), user@) is None,
        decreases seen.len() - k,
    {
        proof {
            assert(pv.take(k + 1).drop_last() =~= pv.take(k as int));
            assert(pv.take(k + 1).last() == (seen@[k as int].0@, seen@[k as int].1@));
        }
        if str_eq(seen[k].0.as_str(), user) {
            proof {
                lemma_seen_role_prefix(pv, user@, k + 1);
            }
            return Some(owned(seen[k].1.as_str()));
        }
        k += 1;
    }
    proof {
        assert(pv.take(pv.len() as int) =~= pv);
    }
    None
}

/// Parse a Slack channel export; speakers take roles by their order.
pub fn try_slack_json(data: &Json) -> (r: Option<String>)
    ensures
        match r {
            Some(t) => slack_spec(*data) == Some(t@),
            None => slack_spec(*data) is None,
        },
{
    let items = match data {
        Json::Array(v) => v,
        _ => {
            return None;
        },
    };
    let mut seen: Vec<(String, String)> = Vec::new();
    let mut last_user = false;
    let mut ms: Vec<(String, String)> = Vec::new();
    let mut i: usize = 0;
    proof {
        assert(pair_views(seen@) =~= Seq::<(Seq<char>, Seq<char>)>::empty());
        assert(msg_views(ms@) =~= Seq::<MessageView>::empty());
        assert(items@.take(0) =~= Seq::<Json>::empty());
    }
    while i < items.len()
        invariant
            i <= items@.len(),
            *data == Json::Array(*items),
            slack_fold(items@.take(i as int)) == Some((pair_views(seen@), last_user, msg_views(ms@))),
        decreases items.len() - i,
    {
        proof {
            assert(items@.take(i + 1).drop_last() =~= items@.take(i as int));
            assert(items@.take(i + 1).last() == items@[i as int]);
        }
        let item = &items[i];
        let ghost st = (pair_views(seen@), last_user, msg_views(ms@));
        let abort: bool = match item {
            Json::Object(_) => match json_get(item, "type") {
                None => true,
                Some(t) => {
                    let is_msg = match json_as_str(Some(t)) {
                        Some(ts) => str_eq(ts, "message"),
                        None => false,
                    };
                    if !is_msg {
                        false
                    } else {
                        match json_get(item, "text") {
                            None => true,
                            Some(tv) => {
                                let text = match json_as_str(Some(tv)) {
                                    Some(x) => trim_str(x),
                                    None => String::new(),
                                };
                                let user: &str = match json_as_str(json_get_either(item, "user", "username")) {
                                    Some(u) => u,
                                    None => "",
                                };
                                proof {
                                    reveal_strlit("");
                                    assert(""@ =~= Seq::<char>::empty());
                                }
                                if !text.as_str().is_empty() && !user.is_empty() {
                                    let role: String = match seen_lookup(&seen, user) {
                                        Some(r) => r,
                                        None => {
                                            let r = if seen.len() == 0 {
                                                owned("user")
                                            } else if last_user {
                                                owned("assistant")
                                            } else {
                                                owned("user")
                                            };
                                            let ghost sv = seen@;
                                            seen.push((owned(user), owned(r.as_str())));
                                            proof {
                                                assert(pair_views(seen@) =~= pair_views(sv).push((user@, r@)));
                                            }
                                            r
                                        },
                                    };
                                    last_user = str_eq(role.as_str(), "user");
                                    push_msg(&mut ms, role.as_str(), text);
                                }
                                false
                            },
                        }
                    }
                },
            },
            _ => true,
        };
        if abort {
            proof {
                lemma_slack_abort_sticks(items@, i as int);
            }
            return None;
        }
        i += 1;
    }
    proof {
        assert(items@.take(items@.len() as int) =~= items@);
    }
    if ms.len() >= 2 {
        let mut t = crate::normalize::messages_to_transcript(&ms);
        crate::text::push_str(&mut t, "\n[source: slack-export | multi-party chat — speaker roles are positional, not verified]");
        Some(t)
    } else {
        None
    }
}

proof fn lemma_slack_abort_sticks(items: Seq<Json>, i: int)
    requires
        0 <= i < items.len(),
        slack_fold(items.take(i + 1)) is None,
    ensures
        slack_fold(items) is None,
    decreases items.len() - i,
{
    if i + 1 < items.len() {
        assert(items.take(i + 2).drop_last() =~= items.take(i + 1));
        lemma_slack_abort_sticks(items, i + 1);
    } else {
        assert(items.take(i + 1) =~= items);
    }
}

// ---------------------------------------------------------------------------
// ChatGPT
// ---------------------------------------------------------------------------

/// The ids of a `mapping`.
pub open spec fn chat_keys(nodes: Seq<(String, Json)>) -> Set<Seq<char>> {
    nodes.map_values(|m: (String, Json)| m.0@).to_set()
}

pub open spec fn absent_or_null(v: Option<Json>) -> bool {
    v is None || v == Some(Json::Null)
}

/// Looking for the root node: the first node without a parent and without
/// a message; failing that, the first node without a parent.  The search
/// stops at the root; a node that is not an object before it rejects the
/// export.
pub open spec fn root_step(st: (Option<Seq<char>>, Option<Seq<char>>), m: (String, Json)) -> Option<
    (Option<Seq<char>>, Option<Seq<char>>),
> {
    if st.0 is Some {
        Some(st)
    } else if !(m.1 is Object) {
        None
    } else if absent_or_null(get(m.1, "parent"@)) {
        if absent_or_null(get(m.1, "message"@)) {
            Some((Some(m.0@), st.1))
        } else if st.1 is None {
            Some((None, Some(m.0@)))
        } else {
            Some(st)
        }
    } else {
        Some(st)
    }
}

pub open spec fn root_scan(nodes: Seq<(String, Json)>) -> Option<(Option<Seq<char>>, Option<Seq<char>>)>
    decreases nodes.len(),
{
    if nodes.len() == 0 {
        Some((None, None))
    } else {
        match root_scan(nodes.drop_last()) {
            None => None,
            Some(st) => root_step(st, nodes.last()),
        }
    }
}

/// The string elements of an array.
pub open spec fn string_elems(v: Seq<Json>) -> Seq<Seq<char>>
    decreases v.len(),
{
    if v.len() == 0 {
        Seq::empty()
    } else {
        match v.last() {
            Json::Str(s) => string_elems(v.drop_last()).push(s@),
            _ => string_elems(v.drop_last()),
        }
    }
}

/// The id of a node's first child (empty when it is not a string); `None`
/// when there is no child array or it is empty.
pub open spec fn first_child(node: Json) -> Option<Seq<char>> {
    match as_array(get(node, "children"@)) {
        Some(cs) => if cs.len() > 0 {
            Some(
                match cs[0] {
                    Json::Str(s) => s@,
                    _ => Seq::empty(),
                },
            )
        } else {
            None
        },
        None => None,
    }
}

/// Visiting one node: its message (author role, content parts joined by
/// spaces) is added when its text is not empty and its role is `user` or
/// `assistant`; the walk goes on to the first child.  `None` rejects the
/// export: a message that is not an object or lacks an author role or a
/// content, or a node without a first child.
pub open spec fn chat_node(node: Json, ms: Seq<MessageView>) -> Option<(Seq<char>, Seq<MessageView>)> {
    match get(node, "message"@) {
        None => match first_child(node) {
            Some(n) => Some((n, ms)),
            None => None,
        },
        Some(mv) => if !(mv is Object) {
            None
        } else {
            match as_object(get(mv, "author"@)) {
                None => None,
                Some(author) => match as_str(get(author, "role"@)) {
                    None => None,
                    Some(role) => match get(mv, "content"@) {
                        None => None,
                        Some(cv) => {
                            let parts = match cv {
                                Json::Array(v) => string_elems(v@),
                                _ => Seq::empty(),
                            };
                            let text = trim(join(parts, " "@));
                            match first_child(node) {
                                None => None,
                                Some(n) => if text.len() > 0 && role == "user"@ {
                                    Some((n, ms.push(("user"@, text))))
                                } else if text.len() > 0 && role == "assistant"@ {
                                    Some((n, ms.push(("assistant"@, text))))
                                } else {
                                    Some((n, ms))
                                },
                            }
                        },
                    },
                },
            }
        },
    }
}

/// An id found in a mapping is one of its keys.
pub proof fn lemma_key_of_index(nodes: Seq<(String, Json)>, id: Seq<char>)
    requires
        member_index(nodes, id) >= 0,
    ensures
        chat_keys(nodes).contains(id),
{
    crate::json::lemma_member_index_bounds(nodes, id);
    let i = member_index(nodes, id);
    let ks = nodes.map_values(|m: (String, Json)| m.0@);
    assert(ks[i] == id);
    assert(ks.contains(id));
}

/// Following first children from `cur` until an empty id or a node seen
/// before.
pub open spec fn chat_walk(nodes: Seq<(String, Json)>, cur: Seq<char>, visited: Set<Seq<char>>, ms: Seq<
    MessageView,
>) -> Option<Seq<MessageView>>
    decreases chat_keys(nodes).len() - visited.len(),
    when visited.subset_of(chat_keys(nodes)) && visited.finite()
{
    if cur.len() == 0 || visited.contains(cur) {
        Some(ms)
    } else {
        let i = member_index(nodes, cur);
        if i < 0 {
            None
        } else if !(nodes[i].1 is Object) {
            None
        } else {
            match chat_node(nodes[i].1, ms) {
                None => None,
                Some(step) => {
                    proof {
                        broadcast use vstd::set::group_set_axioms, vstd::seq_lib::seq_to_set_is_finite;

                        lemma_key_of_index(nodes, cur);
                        vstd::set_lib::lemma_len_subset(visited.insert(cur), chat_keys(nodes));
                    }
                    chat_walk(nodes, step.0, visited.insert(cur), step.1)
                },
            }
        }
    }
}

/// A ChatGPT export: the conversation tree under `mapping`, walked from
/// its root along first children.
pub open spec fn chatgpt_spec(data: Json) -> Option<Seq<char>> {
    match as_object(get(data, "mapping"@)) {
        Some(Json::Object(nodes)) => match root_scan(nodes@) {
            None => None,
            Some(st) => {
                let root = if st.0 is Some {
                    st.0
                } else {
                    st.1
                };
                match root {
                    None => None,
                    Some(r) => match chat_walk(nodes@, r, Set::empty(), Seq::empty()) {
                        None => None,
                        Some(ms) => transcript_if_two(ms),
                    },
                }
            },
        },
        _ => None,
    }
}

fn string_elems_exec(v: &Vec<Json>) -> (r: Vec<String>)
    ensures
        str_views(r@) == string_elems(v@),
{
    let mut r: Vec<String> = Vec::new();
    let mut k: usize = 0;
    while k < v.len()
        invariant
            k <= v@.len(),
            str_views(r@) == string_elems(v@.take(k as int)),
        decreases v.len() - k,
    {
        proof {
            assert(v@.take(k + 1).drop_last() =~= v@.take(k as int));
            assert(v@.take(k + 1).last() == v@[k as int]);
        }
        match &v[k] {
            Json::Str(s) => {
                let ghost before = r@;
                r.push(owned(s.as_str()));
                proof {
                    assert(str_views(r@) =~= str_views(before).push(s@));
                }
            },
            _ => {},
        }
        k += 1;
    }
    proof {
        assert(v@.take(v@.len() as int) =~= v@);
    }
    r
}

fn first_child_exec(node: &Json) -> (r: Option<String>)
    ensures
        match r {
            Some(n) => first_child(*node) == Some(n@),
            None => first_child(*node) is None,
        },
{
    match json_as_array(json_get(node, "children")) {
        Some(cs) => if cs.len() > 0 {
            match &cs[0] {
                Json::Str(s) => Some(owned(s.as_str())),
                _ => Some(String::new()),
            }
        } else {
            None
        },
        None => None,
    }
}

fn chat_node_exec(node: &Json, ms: &mut Vec<(String, String)>) -> (r: Option<String>)
    ensures
        match r {
            Some(n) => chat_node(*node, msg_views(old(ms)@)) == Some((n@, msg_views(final(ms)@))),
            None => chat_node(*node, msg_views(old(ms)@)) is None,
        },
{
    let mv = match json_get(node, "message") {
        None => {
            return first_child_exec(node);
        },
        Some(mv) => mv,
    };
    match mv {
        Json::Object(_) => {},
        _ => {
            return None;
        },
    }
    let author = match json_as_object(json_get(mv, "author")) {
        Some(a) => a,
        None => {
            return None;
        },
    };
    let role = match json_as_str(json_get(author, "role")) {
        Some(r) => r,
        None => {
            return None;
        },
    };
    let cv = match json_get(mv, "content") {
        Some(c) => c,
        None => {
            return None;
        },
    };
    let parts = match cv {
        Json::Array(v) => string_elems_exec(v),
        _ => Vec::new(),
    };
    proof {
        if !(cv is Array) {
            assert(str_views(parts@) =~= Seq::<Seq<char>>::empty());
        }
    }
    let joined = join_strings(&parts, " ");
    let text = trim_str(joined.as_str());
    let next = match first_child_exec(node) {
        Some(n) => n,
        None => {
            return None;
        },
    };
    if !text.as_str().is_empty() && str_eq(role, "user") {
        push_msg(ms, "user", text);
    } else if !text.as_str().is_empty() && str_eq(role, "assistant") {
        push_msg(ms, "assistant", text);
    }
    Some(next)
}

fn visited_contains(v: &Vec<String>, s: &str) -> (r: bool)
    ensures
        r == str_views(v@).contains(s@),
{
    let mut k: usize = 0;
    while k < v.len()
        invariant
            k <= v@.len(),
            forall|i: int| 0 <= i < k ==> str_views(v@)[i] != s@,
        decreases v.len() - k,
    {
        if str_eq(v[k].as_str(), s) {
            proof {
                assert(str_views(v@)[k as int] == s@);
            }
            return true;
        }
        k += 1;
    }
    false
}

/// Parse a ChatGPT export: the conversation tree under `mapping`.
pub fn try_chatgpt_json(data: &Json) -> (r: Option<String>)
    ensures
        match r {
            Some(t) => chatgpt_spec(*data) == Some(t@),
            None => chatgpt_spec(*data) is None,
        },
{
    let nodes = match json_as_object(json_get(data, "mapping")) {
        Some(Json::Object(ns)) => ns,
        _ => {
            return None;
        },
    };
    assert(as_object(get(*data, "mapping"@)) == Some(Json::Object(*nodes)));
    let mut root: Option<&str> = None;
    let mut fallback: Option<&str> = None;
    let mut k: usize = 0;
    proof {
        assert(nodes@.take(0) =~= Seq::<(String, Json)>::empty());
    }
    while k < nodes.len()
        invariant
            k <= nodes@.len(),
            as_object(get(*data, "mapping"@)) == Some(Json::Object(*nodes)),
            root_scan(nodes@.take(k as int)) == Some(
                (
                    match root {
                        Some(x) => Some(x@),
                        None => None::<Seq<char>>,
                    },
                    match fallback {
                        Some(x) => Some(x@),
                        None => None::<Seq<char>>,
                    },
                ),
            ),
        decreases nodes.len() - k,
    {
        proof {
            assert(nodes@.take(k + 1).drop_last() =~= nodes@.take(k as int));
            assert(nodes@.take(k + 1).last() == nodes@[k as int]);
        }
        if root.is_none() {
            let node = &nodes[k].1;
            match node {
                Json::Object(_) => {},
                _ => {
                    proof {
                        lemma_root_abort_sticks(nodes@, k as int);
                    }
                    return None;
                },
            }
            let parent = json_get(node, "parent");
            let no_parent = match parent {
                None => true,
                Some(Json::Null) => true,
                _ => false,
            };
            if no_parent {
                let no_msg = match json_get(node, "message") {
                    None => true,
                    Some(Json::Null) => true,
                    _ => false,
                };
                if no_msg {
                    root = Some(nodes[k].0.as_str());
                } else if fallback.is_none() {
                    fallback = Some(nodes[k].0.as_str());
                }
            }
        }
        k += 1;
    }
    proof {
        assert(nodes@.take(nodes@.len() as int) =~= nodes@);
    }
    let start: &str = match root {
        Some(x) => x,
        None => match fallback {
            Some(x) => x,
            None => {
                return None;
            },
        },
    };
    let ghost keys = chat_keys(nodes@);
    assert(match chat_walk(nodes@, start@, Set::empty(), Seq::empty()) {
        None => chatgpt_spec(*data) is None,
        Some(w) => chatgpt_spec(*data) == transcript_if_two(w),
    });
    let mut visited: Vec<String> = Vec::new();
    let ghost mut vs: Set<Seq<char>> = Set::empty();
    let mut ms: Vec<(String, String)> = Vec::new();
    let mut cur = owned(start);
    let mut go = !cur.as_str().is_empty() && !visited_contains(&visited, cur.as_str());
    proof {
        broadcast use vstd::set::group_set_axioms, vstd::seq_lib::seq_to_set_is_finite;

        assert(str_views(visited@) =~= Seq::<Seq<char>>::empty());
        assert(str_views(visited@).to_set() =~= vs);
        assert(msg_views(ms@) =~= Seq::<MessageView>::empty());
    }
    while go
        invariant
            keys == chat_keys(nodes@),
            match chat_walk(nodes@, start@, Set::empty(), Seq::empty()) {
                None => chatgpt_spec(*data) is None,
                Some(w) => chatgpt_spec(*data) == transcript_if_two(w),
            },
            keys.finite(),
            vs.finite(),
            vs.subset_of(keys),
            str_views(visited@).to_set() == vs,
            go == (cur@.len() > 0 && !vs.contains(cur@)),
            chat_walk(nodes@, start@, Set::empty(), Seq::empty()) == chat_walk(nodes@, cur@, vs, msg_views(ms@)),
        decreases keys.len() - vs.len(),
    {
        proof {
            broadcast use vstd::set::group_set_axioms;

            vstd::set_lib::lemma_len_subset(vs, keys);
        }
        let i = match crate::json::member_lookup(nodes, cur.as_str()) {
            Some(i) => i,
            None => {
                return None;
            },
        };
        let node = &nodes[i].1;
        match node {
            Json::Object(_) => {},
            _ => {
                return None;
            },
        }
        let ghost before_ms = msg_views(ms@);
        let ghost old_cur = cur@;
        let next = match chat_node_exec(node, &mut ms) {
            Some(n) => n,
            None => {
                return None;
            },
        };
        proof {
            broadcast use vstd::set::group_set_axioms;

            lemma_key_of_index(nodes@, old_cur);
        }
        let ghost v_before = visited@;
        visited.push(cur);
        proof {
            broadcast use vstd::set::group_set_axioms;

            assert(str_views(visited@) =~= str_views(v_before).push(old_cur));
            assert(str_views(visited@).to_set() =~= vs.insert(old_cur)) by {
                assert forall|a: Seq<char>| str_views(visited@).contains(a) <==> vs.insert(old_cur).contains(a) by {
                    if str_views(visited@).contains(a) {
                        let j = choose|j: int| 0 <= j < str_views(visited@).len() && str_views(visited@)[j] == a;
                        if j < str_views(v_before).len() {
                            assert(str_views(v_before)[j] == a);
                        }
                    }
                    if str_views(v_before).contains(a) {
                        let j = choose|j: int| 0 <= j < str_views(v_before).len() && str_views(v_before)[j] == a;
                        assert(str_views(visited@)[j] == a);
                    }
                    if a == old_cur {
                        assert(str_views(visited@)[str_views(v_before).len() as int] == a);
                    }
                }
            }
            vs = vs.insert(old_cur);
            vstd::set_lib::lemma_len_subset(vs, keys);
        }
        cur = next;
        go = !cur.as_str().is_empty() && !visited_contains(&visited, cur.as_str());
    }
    transcript_if_two_exec(&ms)
}

proof fn lemma_root_abort_sticks(nodes: Seq<(String, Json)>, i: int)
    requires
        0 <= i < nodes.len(),
        root_scan(nodes.take(i + 1)) is None,
    ensures
        root_scan(nodes) is None,
    decreases nodes.len() - i,
{
    if i + 1 < nodes.len() {
        assert(nodes.take(i + 2).drop_last() =~= nodes.take(i + 1));
        lemma_root_abort_sticks(nodes, i + 1);
    } else {
        assert(nodes.take(i + 1) =~= nodes);
    }
}

} // verus!
