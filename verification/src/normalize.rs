//! Normalizing chat exports (agent-CLI, Codex, Gemini, SoulForge, Pi,
//! Aider, ...) into a `>`-quoted transcript: user turns are quoted, each
//! assistant reply follows its user turn, exchanges are separated by blank
//! lines.
//!
//! The parsers take JSON lines decoded (`None` for a line that is not
//! JSON) and decide what each line contributes; [`detect_format`] decodes
//! the text itself with serde_json.
use vstd::prelude::*;
use crate::json::{
    as_array, as_object, as_str, get, get_either, has_key, json_as_array, json_as_object, json_as_str, json_get,
    json_get_either, json_has_key, opt_deref, Json,
};
use crate::obsidian_export::join_strings;
use crate::text::{
    chars_of, copy_string, join, lines, owned, push_str, starts_with, str_eq, str_views, string_from_chars, trim,
    trim_str,
};

verus! {

broadcast use vstd::string::group_string_axioms;

/// A message: its role (`"user"` or `"assistant"`) and its text.
pub type MessageView = (Seq<char>, Seq<char>);

pub open spec fn msg_views(v: Seq<(String, String)>) -> Seq<MessageView> {
    v.map_values(|m: (String, String)| (m.0@, m.1@))
}

// ---------------------------------------------------------------------------
// Transcripts
// ---------------------------------------------------------------------------

/// The lines of a transcript: a user turn is quoted with `> ` and followed
/// by the assistant reply right after it, if any; an assistant turn that
/// does not follow a user turn stands alone; each exchange ends with a
/// blank line.
pub open spec fn transcript_lines(ms: Seq<MessageView>) -> Seq<Seq<char>>
    decreases ms.len(),
{
    if ms.len() == 0 {
        Seq::empty()
    } else if ms[0].0 == "user"@ {
        if ms.len() >= 2 && ms[1].0 == "assistant"@ {
            seq!["> "@ + ms[0].1, ms[1].1, Seq::empty()] + transcript_lines(ms.skip(2))
        } else {
            seq!["> "@ + ms[0].1, Seq::empty()] + transcript_lines(ms.skip(1))
        }
    } else {
        seq![ms[0].1, Seq::empty()] + transcript_lines(ms.skip(1))
    }
}

pub open spec fn transcript_spec(ms: Seq<MessageView>) -> Seq<char> {
    join(transcript_lines(ms), "\n"@)
}

/// Render messages as a transcript.
pub fn messages_to_transcript(messages: &Vec<(String, String)>) -> (r: String)
    ensures
        r@ == transcript_spec(msg_views(messages@)),
{
    let ghost mv = msg_views(messages@);
    let mut out: Vec<String> = Vec::new();
    let mut i: usize = 0;
    proof {
        assert(mv.skip(0) =~= mv);
    }
    while i < messages.len()
        invariant
            i <= messages@.len(),
            mv == msg_views(messages@),
            str_views(out@) + transcript_lines(mv.skip(i as int)) == transcript_lines(mv),
        decreases messages.len() - i,
    {
        let ghost before = str_views(out@);
        let ghost rest = mv.skip(i as int);
        proof {
            assert(rest[0] == (messages@[i as int].0@, messages@[i as int].1@));
        }
        let role = &messages[i].0;
        let text = &messages[i].1;
        if str_eq(role.as_str(), "user") {
            let mut q = owned("> ");
            push_str(&mut q, text.as_str());
            out.push(q);
            if i + 1 < messages.len() && str_eq(messages[i + 1].0.as_str(), "assistant") {
                out.push(copy_string(&messages[i + 1].1));
                out.push(String::new());
                proof {
                    assert(rest[1] == (messages@[i + 1].0@, messages@[i + 1].1@));
                    assert(rest.skip(2) =~= mv.skip(i + 2));
                    assert(str_views(out@) =~= before + seq!["> "@ + rest[0].1, rest[1].1, Seq::empty()]);
                }
                i += 2;
            } else {
                out.push(String::new());
                proof {
                    if i + 1 < messages.len() {
                        assert(rest[1] == (messages@[i + 1].0@, messages@[i + 1].1@));
                    }
                    assert(rest.skip(1) =~= mv.skip(i + 1));
                    assert(str_views(out@) =~= before + seq!["> "@ + rest[0].1, Seq::empty()]);
                }
                i += 1;
            }
        } else {
            out.push(copy_string(text));
            out.push(String::new());
            proof {
                assert(rest.skip(1) =~= mv.skip(i + 1));
                assert(str_views(out@) =~= before + seq![rest[0].1, Seq::empty()]);
            }
            i += 1;
        }
    }
    proof {
        assert(mv.skip(i as int) =~= Seq::<MessageView>::empty());
        assert(str_views(out@) =~= str_views(out@) + Seq::<Seq<char>>::empty());
    }
    join_strings(&out, "\n")
}

/// State of reading a transcript back: the messages so far, the pending
/// user text and whether a user turn is open.
pub type ReadState = (Seq<MessageView>, Seq<char>, bool);

/// Close an open user turn that has text.
pub open spec fn flush_user(st: ReadState) -> ReadState {
    if st.2 && st.1.len() > 0 {
        (st.0.push(("user"@, trim(st.1))), Seq::empty(), st.2)
    } else {
        st
    }
}

/// Reading one transcript line: a blank line closes an open user turn; a
/// `> ` line opens a user turn (closing the previous one); a line after a
/// user turn is the assistant's reply; any other line continues the last
/// assistant message.
pub open spec fn read_step(st: ReadState, line: Seq<char>) -> ReadState {
    let t = trim(line);
    if t.len() == 0 {
        if st.2 && st.1.len() > 0 {
            (st.0.push(("user"@, trim(st.1))), Seq::empty(), false)
        } else {
            st
        }
    } else if starts_with(t, "> "@) {
        let f = flush_user(st);
        (f.0, t.skip(2), true)
    } else if st.2 {
        let f = flush_user(st);
        (f.0.push(("assistant"@, t)), f.1, false)
    } else if st.0.len() > 0 && st.0.last().0 == "assistant"@ {
        (st.0.update(st.0.len() - 1, ("assistant"@, st.0.last().1 + "\n"@ + t)), st.1, st.2)
    } else {
        st
    }
}

pub open spec fn read_lines(ls: Seq<Seq<char>>) -> ReadState
    decreases ls.len(),
{
    if ls.len() == 0 {
        (Seq::empty(), Seq::empty(), false)
    } else {
        read_step(read_lines(ls.drop_last()), ls.last())
    }
}

/// The messages of a transcript, when there are at least two.
pub open spec fn transcript_messages(transcript: Seq<char>) -> Option<Seq<MessageView>> {
    let ms = flush_user(read_lines(lines(transcript))).0;
    if ms.len() >= 2 {
        Some(ms)
    } else {
        None
    }
}

/// Read a `>`-quoted transcript back into messages; `None` when it holds
/// fewer than two.
pub fn parse_transcript_to_messages(transcript: &str) -> (r: Option<Vec<(String, String)>>)
    ensures
        match r {
            Some(v) => transcript_messages(transcript@) == Some(msg_views(v@)),
            None => transcript_messages(transcript@) is None,
        },
{
    let cs = chars_of(transcript);
    let ls = crate::text::lines_of(cs.as_slice());
    let ghost lv = lines(transcript@);
    let mut messages: Vec<(String, String)> = Vec::new();
    let mut current_user = String::new();
    let mut in_user = false;
    let mut k: usize = 0;
    while k < ls.len()
        invariant
            k <= ls@.len(),
            ls@.len() == lv.len(),
            lv == lines(transcript@),
            forall|i: int| 0 <= i < ls@.len() ==> #[trigger] ls@[i]@ == lv[i],
            read_lines(lv.take(k as int)) == (msg_views(messages@), current_user@, in_user),
        decreases ls.len() - k,
    {
        proof {
            assert(lv.take(k + 1).drop_last() =~= lv.take(k as int));
            assert(lv.take(k + 1).last() == ls@[k as int]@);
        }
        let ghost st = (msg_views(messages@), current_user@, in_user);
        let line = string_from_chars(ls[k].as_slice());
        let t = trim_str(line.as_str());
        let tc = chars_of(t.as_str());
        if tc.len() == 0 {
            if in_user && !current_user.as_str().is_empty() {
                let ghost before = messages@;
                messages.push((owned("user"), trim_str(current_user.as_str())));
                current_user = String::new();
                in_user = false;
                proof {
                    assert(msg_views(messages@) =~= msg_views(before).push(("user"@, trim(st.1))));
                }
            }
        } else if crate::text::str_starts_with(t.as_str(), "> ") {
            if in_user && !current_user.as_str().is_empty() {
                let ghost before = messages@;
                messages.push((owned("user"), trim_str(current_user.as_str())));
                proof {
                    assert(msg_views(messages@) =~= msg_views(before).push(("user"@, trim(st.1))));
                }
            }
            let mut u: Vec<char> = Vec::new();
            let mut j: usize = 2;
            proof {
                reveal_strlit("> ");
                assert(starts_with(t@, "> "@));
            }
            while j < tc.len()
                invariant
                    2 <= j <= tc@.len(),
                    tc@.len() >= 2,
                    u@ == tc@.subrange(2, j as int),
                decreases tc.len() - j,
            {
                u.push(tc[j]);
                proof {
                    assert(tc@.subrange(2, j + 1) =~= tc@.subrange(2, j as int).push(tc@[j as int]));
                }
                j += 1;
            }
            proof {
                assert(tc@.subrange(2, tc@.len() as int) =~= t@.skip(2));
            }
            current_user = string_from_chars(u.as_slice());
            in_user = true;
        } else if in_user {
            let ghost before = messages@;
            if !current_user.as_str().is_empty() {
                messages.push((owned("user"), trim_str(current_user.as_str())));
                current_user = String::new();
            }
            let ghost mid = messages@;
            messages.push((owned("assistant"), copy_string(&t)));
            in_user = false;
            proof {
                let f = flush_user(st);
                assert(msg_views(mid) =~= f.0);
                assert(msg_views(messages@) =~= f.0.push(("assistant"@, t@)));
                assert(current_user@ =~= f.1);
            }
        } else {
            let n = messages.len();
            if n > 0 && str_eq(messages[n - 1].0.as_str(), "assistant") {
                let ghost before = messages@;
                let mut last = copy_string(&messages[n - 1].1);
                push_str(&mut last, "\n");
                push_str(&mut last, t.as_str());
                messages.set(n - 1, (owned("assistant"), last));
                proof {
                    assert(msg_views(messages@) =~= msg_views(before).update(
                        n - 1,
                        ("assistant"@, msg_views(before).last().1 + "\n"@ + t@),
                    ));
                }
            }
        }
        k += 1;
    }
    proof {
        assert(lv.take(lv.len() as int) =~= lv);
    }
    if in_user && !current_user.as_str().is_empty() {
        let ghost before = messages@;
        messages.push((owned("user"), trim_str(current_user.as_str())));
        proof {
            assert(msg_views(messages@) =~= msg_views(before).push(("user"@, trim(current_user@))));
        }
    }
    if messages.len() >= 2 {
        Some(messages)
    } else {
        None
    }
}

// ---------------------------------------------------------------------------
// Writing a transcript and reading it back
// ---------------------------------------------------------------------------

/// A text without a line break.
pub open spec fn no_newline(s: Seq<char>) -> bool {
    forall|i: int| 0 <= i < s.len() ==> s[i] != '\n'
}

/// A message text that survives a transcript unchanged: one non-empty
/// line with no white space at either end.
pub open spec fn plain_line(t: Seq<char>) -> bool {
    &&& t.len() > 0
    &&& no_newline(t)
    &&& !crate::text::is_ws(t[0])
    &&& !crate::text::is_ws(t.last())
}

/// Messages that alternate user, assistant, user, ... from a user turn,
/// each text a plain line, and no assistant text opening with `> `.
pub open spec fn alternating_plain(ms: Seq<MessageView>) -> bool {
    &&& forall|i: int| 0 <= i < ms.len() ==> (#[trigger] ms[i]).0 == if i % 2 == 0 {
        "user"@
    } else {
        "assistant"@
    }
    &&& forall|i: int| 0 <= i < ms.len() ==> plain_line((#[trigger] ms[i]).1)
    &&& forall|i: int| 0 <= i < ms.len() && i % 2 == 1 ==> !starts_with((#[trigger] ms[i]).1, "> "@)
}

proof fn lemma_split_single(y: Seq<char>)
    requires
        no_newline(y),
    ensures
        crate::text::split_on(y, '\n') == seq![y],
    decreases y.len(),
{
    if y.len() > 0 {
        lemma_split_single(y.drop_last());
        assert(y.drop_last().push(y.last()) =~= y);
    } else {
        assert(y =~= Seq::<char>::empty());
    }
}

proof fn lemma_split_after_newline(x: Seq<char>, y: Seq<char>)
    requires
        no_newline(y),
    ensures
        crate::text::split_on(x + seq!['\n'] + y, '\n') == crate::text::split_on(x, '\n').push(y),
    decreases y.len(),
{
    let s = x + seq!['\n'] + y;
    if y.len() == 0 {
        assert(s.drop_last() =~= x);
        assert(y =~= Seq::<char>::empty());
    } else {
        lemma_split_after_newline(x, y.drop_last());
        assert(s.drop_last() =~= x + seq!['\n'] + y.drop_last());
        assert(y.drop_last().push(y.last()) =~= y);
        crate::text::lemma_split_on_nonempty(x, '\n');
        assert(crate::text::split_on(s, '\n') =~= crate::text::split_on(x, '\n').push(y));
    }
}

proof fn lemma_split_join(ps: Seq<Seq<char>>)
    requires
        ps.len() >= 1,
        forall|i: int| 0 <= i < ps.len() ==> no_newline(#[trigger] ps[i]),
    ensures
        crate::text::split_on(join(ps, seq!['\n']), '\n') == ps,
    decreases ps.len(),
{
    if ps.len() == 1 {
        lemma_split_single(ps[0]);
        assert(seq![ps[0]] =~= ps);
    } else {
        let q = ps.drop_last();
        assert forall|i: int| 0 <= i < q.len() implies no_newline(#[trigger] q[i]) by {
            assert(q[i] == ps[i]);
        }
        lemma_split_join(q);
        assert(no_newline(ps[ps.len() - 1]));
        lemma_split_after_newline(join(q, seq!['\n']), ps.last());
        assert(q.push(ps.last()) =~= ps);
    }
}

/// The transcript lines of alternating messages, built from the back: the
/// last exchange, or the last lone user turn, after those before it.
proof fn lemma_transcript_lines_back(ms: Seq<MessageView>)
    requires
        alternating_plain(ms),
        ms.len() >= 1,
    ensures
        ms.len() % 2 == 0 ==> transcript_lines(ms) == transcript_lines(ms.take(ms.len() - 2)) + seq![
            "> "@ + ms[ms.len() - 2].1,
            ms[ms.len() - 1].1,
            Seq::<char>::empty(),
        ],
        ms.len() % 2 == 1 ==> transcript_lines(ms) == transcript_lines(ms.take(ms.len() - 1)) + seq![
            "> "@ + ms[ms.len() - 1].1,
            Seq::<char>::empty(),
        ],
    decreases ms.len(),
{
    let n = ms.len();
    assert(ms[0].0 == "user"@);
    if n == 1 {
        assert(ms.take(0) =~= Seq::<MessageView>::empty());
        assert(ms.skip(1) =~= Seq::<MessageView>::empty());
    } else if n == 2 {
        assert(ms[1].0 == "assistant"@);
        assert(ms.take(0) =~= Seq::<MessageView>::empty());
        assert(ms.skip(2) =~= Seq::<MessageView>::empty());
    } else {
        assert(ms[1].0 == "assistant"@);
        let r = ms.skip(2);
        assert forall|i: int| 0 <= i < r.len() implies (#[trigger] r[i]).0 == if i % 2 == 0 {
            "user"@
        } else {
            "assistant"@
        } by {
            assert(r[i] == ms[i + 2]);
        }
        assert forall|i: int| 0 <= i < r.len() implies plain_line((#[trigger] r[i]).1) by {
            assert(r[i] == ms[i + 2]);
        }
        assert forall|i: int| 0 <= i < r.len() && i % 2 == 1 implies !starts_with((#[trigger] r[i]).1, "> "@) by {
            assert(r[i] == ms[i + 2]);
        }
        lemma_transcript_lines_back(r);
        let t = if n % 2 == 0 {
            ms.take(n - 2)
        } else {
            ms.take(n - 1)
        };
        assert(t[0] == ms[0] && t[1] == ms[1]);
        assert(t.skip(2) =~= if n % 2 == 0 {
            r.take(r.len() - 2)
        } else {
            r.take(r.len() - 1)
        });
        if n % 2 == 0 {
            assert(r[r.len() - 2] == ms[n - 2] && r[r.len() - 1] == ms[n - 1]);
        } else {
            assert(r[r.len() - 1] == ms[n - 1]);
        }
    }
}

proof fn lemma_trim_plain(t: Seq<char>)
    requires
        t.len() > 0,
        !crate::text::is_ws(t[0]),
        !crate::text::is_ws(t.last()),
    ensures
        trim(t) == t,
{
}

/// Reading the lines of alternating messages back gives the messages, with
/// no user turn left open.
proof fn lemma_read_transcript_lines(ms: Seq<MessageView>)
    requires
        alternating_plain(ms),
    ensures
        read_lines(transcript_lines(ms)) == (ms, Seq::<char>::empty(), false),
    decreases ms.len(),
{
    reveal_strlit("> ");
    let n = ms.len();
    if n == 0 {
        assert(transcript_lines(ms) =~= Seq::<Seq<char>>::empty());
        assert(ms =~= Seq::<MessageView>::empty());
    } else {
        lemma_transcript_lines_back(ms);
        let k: int = if n % 2 == 0 {
            n - 2
        } else {
            n - 1
        };
        let p = ms.take(k);
        assert forall|i: int| 0 <= i < p.len() implies (#[trigger] p[i]).0 == if i % 2 == 0 {
            "user"@
        } else {
            "assistant"@
        } by {
            assert(p[i] == ms[i]);
        }
        assert forall|i: int| 0 <= i < p.len() implies plain_line((#[trigger] p[i]).1) by {
            assert(p[i] == ms[i]);
        }
        assert forall|i: int| 0 <= i < p.len() && i % 2 == 1 implies !starts_with((#[trigger] p[i]).1, "> "@) by {
            assert(p[i] == ms[i]);
        }
        lemma_read_transcript_lines(p);
        let before = transcript_lines(p);
        let u = ms[k];
        assert(k % 2 == 0);
        assert(u.0 == "user"@);
        assert(plain_line(u.1));
        lemma_trim_plain(u.1);
        let ul = "> "@ + u.1;
        assert(ul[0] == '>');
        assert(ul.last() == u.1.last());
        lemma_trim_plain(ul);
        assert(starts_with(ul, "> "@)) by {
            assert(ul.take(2) =~= "> "@);
        }
        assert(ul.skip(2) =~= u.1);
        let l1 = before.push(ul);
        assert(l1.drop_last() =~= before);
        assert(read_lines(l1) == (p, u.1, true));
        assert(trim(Seq::<char>::empty()) =~= Seq::<char>::empty());
        if n % 2 == 0 {
            let a = ms[n - 1];
            assert(a.0 == "assistant"@);
            assert(plain_line(a.1));
            assert(!starts_with(a.1, "> "@));
            lemma_trim_plain(a.1);
            let l2 = l1.push(a.1);
            assert(l2.drop_last() =~= l1);
            assert(read_lines(l2) == (p.push(("user"@, u.1)).push(("assistant"@, a.1)), Seq::<char>::empty(), false));
            let l3 = l2.push(Seq::<char>::empty());
            assert(l3.drop_last() =~= l2);
            assert(l3 =~= transcript_lines(ms));
            assert(p.push(("user"@, u.1)).push(("assistant"@, a.1)) =~= ms);
        } else {
            let l2 = l1.push(Seq::<char>::empty());
            assert(l2.drop_last() =~= l1);
            assert(l2 =~= transcript_lines(ms));
            assert(p.push(("user"@, u.1)) =~= ms);
        }
    }
}

/// Every line of the transcript of alternating messages is free of line
/// breaks and of a trailing carriage return, and the last one is empty.
proof fn lemma_transcript_lines_shape(ms: Seq<MessageView>)
    requires
        alternating_plain(ms),
        ms.len() >= 1,
    ensures
        transcript_lines(ms).len() >= 2,
        transcript_lines(ms).last() == Seq::<char>::empty(),
        forall|i: int| 0 <= i < transcript_lines(ms).len() ==> no_newline(#[trigger] transcript_lines(ms)[i]),
        forall|i: int| 0 <= i < transcript_lines(ms).len() ==> crate::text::strip_cr(#[trigger] transcript_lines(ms)[i]) == transcript_lines(ms)[i],
    decreases ms.len(),
{
    reveal_strlit("> ");
    lemma_transcript_lines_back(ms);
    let n = ms.len();
    let k: int = if n % 2 == 0 {
        n - 2
    } else {
        n - 1
    };
    let p = ms.take(k);
    let tl = transcript_lines(ms);
    let before = transcript_lines(p);
    if k > 0 {
        assert forall|i: int| 0 <= i < p.len() implies (#[trigger] p[i]).0 == if i % 2 == 0 {
            "user"@
        } else {
            "assistant"@
        } by {
            assert(p[i] == ms[i]);
        }
        assert forall|i: int| 0 <= i < p.len() implies plain_line((#[trigger] p[i]).1) by {
            assert(p[i] == ms[i]);
        }
        assert forall|i: int| 0 <= i < p.len() && i % 2 == 1 implies !starts_with((#[trigger] p[i]).1, "> "@) by {
            assert(p[i] == ms[i]);
        }
        lemma_transcript_lines_shape(p);
    } else {
        assert(p =~= Seq::<MessageView>::empty());
        assert(before =~= Seq::<Seq<char>>::empty());
    }
    let u = ms[k];
    assert(plain_line(u.1));
    let ul = "> "@ + u.1;
    assert(no_newline(ul)) by {
        assert forall|j: int| 0 <= j < ul.len() implies ul[j] != '\n' by {
            if j >= 2 {
                assert(ul[j] == u.1[j - 2]);
            }
        }
    }
    assert(ul.last() == u.1.last());
    assert(crate::text::is_ws('\r'));
    assert forall|i: int| 0 <= i < tl.len() implies no_newline(#[trigger] tl[i])
        && crate::text::strip_cr(tl[i]) == tl[i] by {
        if i < before.len() {
            assert(tl[i] == before[i]);
        } else if i == before.len() {
            assert(tl[i] == ul);
        } else if n % 2 == 0 && i == before.len() + 1 {
            assert(tl[i] == ms[n - 1].1);
            assert(plain_line(ms[n - 1].1));
        } else {
            assert(tl[i] == Seq::<char>::empty());
        }
    }
}

/// Writing alternating messages as a transcript and reading it back gives
/// the same messages, when they open with a user turn, number at least
/// two, and each text is one non-empty line with no white space at either
/// end (an assistant text not opening with `> `).
pub proof fn lemma_transcript_round_trip(ms: Seq<MessageView>)
    requires
        ms.len() >= 2,
        alternating_plain(ms),
    ensures
        transcript_messages(transcript_spec(ms)) == Some(ms),
{
    reveal_strlit("\n");
    let tl = transcript_lines(ms);
    lemma_transcript_lines_shape(ms);
    assert("\n"@ =~= seq!['\n']);
    lemma_split_join(tl);
    let s = transcript_spec(ms);
    let q = tl.drop_last();
    assert(tl.len() >= 2);
    assert(s == join(q, seq!['\n']) + seq!['\n'] + tl.last());
    assert(s.len() > 0 && s.last() == '\n');
    assert(crate::text::lines(s) =~= q) by {
        assert forall|i: int| 0 <= i < q.len() implies crate::text::strip_cr(#[trigger] q[i]) == q[i] by {
            assert(q[i] == tl[i]);
        }
    }
    lemma_read_transcript_lines(ms);
    assert(q.push(tl.last()) =~= tl);
    assert(flush_user(read_lines(q)).0 == read_lines(tl).0);
}

// ---------------------------------------------------------------------------
// Multi-line replies
// ---------------------------------------------------------------------------

/// Roles alternate user, assistant, user, ... from a user turn.
pub open spec fn alternating_roles(ms: Seq<MessageView>) -> bool {
    forall|i: int| 0 <= i < ms.len() ==> (#[trigger] ms[i]).0 == if i % 2 == 0 {
        "user"@
    } else {
        "assistant"@
    }
}

/// An assistant reply that survives a transcript unchanged: each of its
/// lines is non-empty with no white space at either end, and none opens
/// with `> `.
pub open spec fn reply_lines_ok(a: Seq<char>) -> bool {
    forall|i: int|
        0 <= i < crate::text::split_on(a, '\n').len() ==> plain_line(#[trigger] crate::text::split_on(a, '\n')[i])
            && !starts_with(crate::text::split_on(a, '\n')[i], "> "@)
}

/// Alternating messages from a user turn, each user text a plain line and
/// each assistant reply made of one or more plain lines.
pub open spec fn alternating_replies(ms: Seq<MessageView>) -> bool {
    &&& alternating_roles(ms)
    &&& forall|i: int| 0 <= i < ms.len() && i % 2 == 0 ==> plain_line((#[trigger] ms[i]).1)
    &&& forall|i: int| 0 <= i < ms.len() && i % 2 == 1 ==> reply_lines_ok((#[trigger] ms[i]).1)
}

/// Every piece of `ls` cut at its line breaks, in order.
pub open spec fn flat_lines(ls: Seq<Seq<char>>) -> Seq<Seq<char>>
    decreases ls.len(),
{
    if ls.len() == 0 {
        Seq::empty()
    } else {
        flat_lines(ls.drop_last()) + crate::text::split_on(ls.last(), '\n')
    }
}

/// The lines that continue a reply, each after a line break.
pub open spec fn continued(rs: Seq<Seq<char>>) -> Seq<char>
    decreases rs.len(),
{
    if rs.len() == 0 {
        Seq::empty()
    } else {
        continued(rs.drop_last()) + "\n"@ + rs.last()
    }
}

proof fn lemma_join_concat(x: Seq<Seq<char>>, y: Seq<Seq<char>>, sep: Seq<char>)
    requires
        x.len() >= 1,
        y.len() >= 1,
    ensures
        join(x + y, sep) == join(x, sep) + sep + join(y, sep),
    decreases y.len(),
{
    assert((x + y).drop_last() =~= x + y.drop_last());
    assert((x + y).last() == y.last());
    if y.len() == 1 {
        assert(x + y.drop_last() =~= x);
    } else {
        lemma_join_concat(x, y.drop_last(), sep);
        assert(join(x, sep) + sep + join(y.drop_last(), sep) + sep + y.last() =~= join(x, sep) + sep + (join(
            y.drop_last(),
            sep,
        ) + sep + y.last()));
    }
}

proof fn lemma_join_split(y: Seq<char>)
    ensures
        join(crate::text::split_on(y, '\n'), "\n"@) == y,
    decreases y.len(),
{
    reveal_strlit("\n");
    let p = crate::text::split_on(y.drop_last(), '\n');
    if y.len() == 0 {
        assert(y =~= Seq::<char>::empty());
    } else {
        lemma_join_split(y.drop_last());
        crate::text::lemma_split_on_nonempty(y.drop_last(), '\n');
        let s = crate::text::split_on(y, '\n');
        if y.last() == '\n' {
            assert(s.drop_last() =~= p);
            assert(y =~= y.drop_last() + "\n"@ + Seq::<char>::empty());
        } else {
            if p.len() == 1 {
                assert(s =~= seq![p[0].push(y.last())]);
                assert(y =~= y.drop_last().push(y.last()));
            } else {
                assert(s.drop_last() =~= p.drop_last());
                assert(s.last() == p.last().push(y.last()));
                assert(join(p, "\n"@) == join(p.drop_last(), "\n"@) + "\n"@ + p.last());
                assert(join(s, "\n"@) == join(s.drop_last(), "\n"@) + "\n"@ + s.last());
                assert(y =~= y.drop_last().push(y.last()));
                assert(y =~= join(p.drop_last(), "\n"@) + "\n"@ + p.last().push(y.last()));
            }
        }
    }
}

proof fn lemma_flat_concat(x: Seq<Seq<char>>, y: Seq<Seq<char>>)
    ensures
        flat_lines(x + y) == flat_lines(x) + flat_lines(y),
    decreases y.len(),
{
    if y.len() == 0 {
        assert(x + y =~= x);
        assert(flat_lines(x) + flat_lines(y) =~= flat_lines(x));
    } else {
        lemma_flat_concat(x, y.drop_last());
        assert((x + y).drop_last() =~= x + y.drop_last());
        assert((x + y).last() == y.last());
    }
}

proof fn lemma_flat_nonempty(ls: Seq<Seq<char>>)
    ensures
        ls.len() >= 1 ==> flat_lines(ls).len() >= 1,
    decreases ls.len(),
{
    if ls.len() > 0 {
        lemma_flat_nonempty(ls.drop_last());
        crate::text::lemma_split_on_nonempty(ls.last(), '\n');
    }
}

proof fn lemma_join_flat(ls: Seq<Seq<char>>)
    requires
        ls.len() >= 1,
    ensures
        join(flat_lines(ls), "\n"@) == join(ls, "\n"@),
    decreases ls.len(),
{
    let last = crate::text::split_on(ls.last(), '\n');
    crate::text::lemma_split_on_nonempty(ls.last(), '\n');
    lemma_join_split(ls.last());
    if ls.len() == 1 {
        assert(ls.drop_last() =~= Seq::<Seq<char>>::empty());
        assert(flat_lines(ls) =~= last);
    } else {
        lemma_join_flat(ls.drop_last());
        lemma_flat_nonempty(ls.drop_last());
        lemma_join_concat(flat_lines(ls.drop_last()), last, "\n"@);
    }
}

proof fn lemma_split_pieces_no_newline(y: Seq<char>)
    ensures
        forall|i: int| 0 <= i < crate::text::split_on(y, '\n').len() ==> no_newline(
            #[trigger] crate::text::split_on(y, '\n')[i],
        ),
    decreases y.len(),
{
    if y.len() > 0 {
        lemma_split_pieces_no_newline(y.drop_last());
        crate::text::lemma_split_on_nonempty(y.drop_last(), '\n');
        let p = crate::text::split_on(y.drop_last(), '\n');
        let s = crate::text::split_on(y, '\n');
        assert forall|i: int| 0 <= i < s.len() implies no_newline(#[trigger] s[i]) by {
            if i < p.len() - 1 || (i < p.len() && y.last() == '\n') {
                assert(s[i] == p[i]);
            } else if y.last() != '\n' {
                assert(s[i] == p.last().push(y.last()));
                assert(no_newline(p[p.len() - 1]));
                assert forall|k: int| 0 <= k < s[i].len() implies s[i][k] != '\n' by {
                    if k < p.last().len() {
                        assert(s[i][k] == p.last()[k]);
                    }
                }
            } else {
                assert(s[i] =~= Seq::<char>::empty());
            }
        }
    }
}

/// A line of a written transcript: no line break, and no white space at its
/// end unless it is empty.
pub open spec fn written_line(x: Seq<char>) -> bool {
    no_newline(x) && (x.len() == 0 || !crate::text::is_ws(x.last()))
}

/// The transcript lines of alternating messages, built from the back
/// (roles only).
proof fn lemma_transcript_lines_back_roles(ms: Seq<MessageView>)
    requires
        alternating_roles(ms),
        ms.len() >= 1,
    ensures
        ms.len() % 2 == 0 ==> transcript_lines(ms) == transcript_lines(ms.take(ms.len() - 2)) + seq![
            "> "@ + ms[ms.len() - 2].1,
            ms[ms.len() - 1].1,
            Seq::<char>::empty(),
        ],
        ms.len() % 2 == 1 ==> transcript_lines(ms) == transcript_lines(ms.take(ms.len() - 1)) + seq![
            "> "@ + ms[ms.len() - 1].1,
            Seq::<char>::empty(),
        ],
    decreases ms.len(),
{
    let n = ms.len();
    assert(ms[0].0 == "user"@);
    if n == 1 {
        assert(ms.take(0) =~= Seq::<MessageView>::empty());
        assert(ms.skip(1) =~= Seq::<MessageView>::empty());
    } else if n == 2 {
        assert(ms[1].0 == "assistant"@);
        assert(ms.take(0) =~= Seq::<MessageView>::empty());
        assert(ms.skip(2) =~= Seq::<MessageView>::empty());
    } else {
        assert(ms[1].0 == "assistant"@);
        let r = ms.skip(2);
        assert forall|i: int| 0 <= i < r.len() implies (#[trigger] r[i]).0 == if i % 2 == 0 {
            "user"@
        } else {
            "assistant"@
        } by {
            assert(r[i] == ms[i + 2]);
        }
        lemma_transcript_lines_back_roles(r);
        let t = if n % 2 == 0 {
            ms.take(n - 2)
        } else {
            ms.take(n - 1)
        };
        assert(t[0] == ms[0] && t[1] == ms[1]);
        assert(t.skip(2) =~= if n % 2 == 0 {
            r.take(r.len() - 2)
        } else {
            r.take(r.len() - 1)
        });
        if n % 2 == 0 {
            assert(r[r.len() - 2] == ms[n - 2] && r[r.len() - 1] == ms[n - 1]);
        } else {
            assert(r[r.len() - 1] == ms[n - 1]);
        }
    }
}

proof fn lemma_alternating_prefix(ms: Seq<MessageView>, k: int)
    requires
        alternating_replies(ms),
        0 <= k <= ms.len(),
    ensures
        alternating_replies(ms.take(k)),
{
    let p = ms.take(k);
    assert forall|i: int| 0 <= i < p.len() implies (#[trigger] p[i]).0 == if i % 2 == 0 {
        "user"@
    } else {
        "assistant"@
    } by {
        assert(p[i] == ms[i]);
    }
    assert forall|i: int| 0 <= i < p.len() && i % 2 == 0 implies plain_line((#[trigger] p[i]).1) by {
        assert(p[i] == ms[i]);
    }
    assert forall|i: int| 0 <= i < p.len() && i % 2 == 1 implies reply_lines_ok((#[trigger] p[i]).1) by {
        assert(p[i] == ms[i]);
    }
}

/// The written lines of alternating messages, replies cut at their line
/// breaks, built from the back.
proof fn lemma_flat_back(ms: Seq<MessageView>)
    requires
        alternating_replies(ms),
        ms.len() >= 1,
    ensures
        ms.len() % 2 == 0 ==> flat_lines(transcript_lines(ms)) == flat_lines(transcript_lines(ms.take(ms.len() - 2)))
            + seq!["> "@ + ms[ms.len() - 2].1] + crate::text::split_on(ms[ms.len() - 1].1, '\n') + seq![
            Seq::<char>::empty(),
        ],
        ms.len() % 2 == 1 ==> flat_lines(transcript_lines(ms)) == flat_lines(transcript_lines(ms.take(ms.len() - 1)))
            + seq!["> "@ + ms[ms.len() - 1].1, Seq::<char>::empty()],
{
    reveal_strlit("> ");
    lemma_transcript_lines_back_roles(ms);
    let n = ms.len();
    let k: int = if n % 2 == 0 {
        n - 2
    } else {
        n - 1
    };
    let u = ms[k];
    assert(k % 2 == 0);
    assert(plain_line(u.1));
    let ul = "> "@ + u.1;
    assert(no_newline(ul)) by {
        assert forall|j: int| 0 <= j < ul.len() implies ul[j] != '\n' by {
            if j >= 2 {
                assert(ul[j] == u.1[j - 2]);
            }
        }
    }
    lemma_split_single(ul);
    let e = Seq::<char>::empty();
    assert(crate::text::split_on(e, '\n') =~= seq![e]);
    let before = transcript_lines(ms.take(k));
    if n % 2 == 0 {
        let a = ms[n - 1].1;
        let tail = seq![ul, a, e];
        lemma_flat_concat(before, tail);
        assert(tail.drop_last().drop_last().drop_last() =~= Seq::<Seq<char>>::empty());
        assert(tail.drop_last().drop_last() =~= seq![ul]);
        assert(tail.drop_last() =~= seq![ul, a]);
        assert(flat_lines(Seq::<Seq<char>>::empty()) =~= Seq::<Seq<char>>::empty());
        assert(seq![ul].drop_last() =~= Seq::<Seq<char>>::empty());
        assert(flat_lines(seq![ul]) =~= seq![ul]);
        assert(flat_lines(seq![ul, a]) =~= seq![ul] + crate::text::split_on(a, '\n'));
        assert(flat_lines(tail) =~= seq![ul] + crate::text::split_on(a, '\n') + seq![e]);
    } else {
        let tail = seq![ul, e];
        lemma_flat_concat(before, tail);
        assert(tail.drop_last().drop_last() =~= Seq::<Seq<char>>::empty());
        assert(tail.drop_last() =~= seq![ul]);
        assert(flat_lines(Seq::<Seq<char>>::empty()) =~= Seq::<Seq<char>>::empty());
        assert(seq![ul].drop_last() =~= Seq::<Seq<char>>::empty());
        assert(flat_lines(seq![ul]) =~= seq![ul]);
        assert(flat_lines(tail) =~= seq![ul, e]);
    }
}

proof fn lemma_flat_shape(ms: Seq<MessageView>)
    requires
        alternating_replies(ms),
        ms.len() >= 1,
    ensures
        flat_lines(transcript_lines(ms)).len() >= 2,
        flat_lines(transcript_lines(ms)).last() == Seq::<char>::empty(),
        forall|i: int| 0 <= i < flat_lines(transcript_lines(ms)).len() ==> written_line(
            #[trigger] flat_lines(transcript_lines(ms))[i],
        ),
    decreases ms.len(),
{
    reveal_strlit("> ");
    lemma_flat_back(ms);
    let n = ms.len();
    let k: int = if n % 2 == 0 {
        n - 2
    } else {
        n - 1
    };
    let f = flat_lines(transcript_lines(ms));
    let before = flat_lines(transcript_lines(ms.take(k)));
    if k > 0 {
        lemma_alternating_prefix(ms, k);
        lemma_flat_shape(ms.take(k));
    } else {
        assert(ms.take(k) =~= Seq::<MessageView>::empty());
        assert(before =~= Seq::<Seq<char>>::empty());
    }
    let u = ms[k];
    assert(k % 2 == 0);
    assert(plain_line(u.1));
    let ul = "> "@ + u.1;
    assert(written_line(ul)) by {
        assert forall|j: int| 0 <= j < ul.len() implies ul[j] != '\n' by {
            if j >= 2 {
                assert(ul[j] == u.1[j - 2]);
            }
        }
        assert(ul.last() == u.1.last());
    }
    if n % 2 == 0 {
        let a = ms[n - 1].1;
        assert(reply_lines_ok(a));
        let ps = crate::text::split_on(a, '\n');
        lemma_split_pieces_no_newline(a);
        assert forall|i: int| 0 <= i < f.len() implies written_line(#[trigger] f[i]) by {
            if i < before.len() {
                assert(f[i] == before[i]);
            } else if i == before.len() {
                assert(f[i] == ul);
            } else if i < before.len() + 1 + ps.len() {
                assert(f[i] == ps[i - before.len() - 1]);
                assert(plain_line(ps[i - before.len() - 1]));
            } else {
                assert(f[i] == Seq::<char>::empty());
            }
        }
    } else {
        assert forall|i: int| 0 <= i < f.len() implies written_line(#[trigger] f[i]) by {
            if i < before.len() {
                assert(f[i] == before[i]);
            } else if i == before.len() {
                assert(f[i] == ul);
            } else {
                assert(f[i] == Seq::<char>::empty());
            }
        }
    }
}

proof fn lemma_read_continued(x: Seq<Seq<char>>, q: Seq<MessageView>, rs: Seq<Seq<char>>)
    requires
        read_lines(x) == (q, Seq::<char>::empty(), false),
        q.len() > 0,
        q.last().0 == "assistant"@,
        forall|i: int| 0 <= i < rs.len() ==> plain_line(#[trigger] rs[i]) && !starts_with(rs[i], "> "@),
    ensures
        read_lines(x + rs) == (q.drop_last().push(("assistant"@, q.last().1 + continued(rs))), Seq::<char>::empty(), false),
    decreases rs.len(),
{
    if rs.len() == 0 {
        assert(x + rs =~= x);
        assert(q.last().1 + continued(rs) =~= q.last().1);
        assert(q.drop_last().push(("assistant"@, q.last().1)) =~= q);
    } else {
        let rp = rs.drop_last();
        assert forall|i: int| 0 <= i < rp.len() implies plain_line(#[trigger] rp[i]) && !starts_with(rp[i], "> "@) by {
            assert(rp[i] == rs[i]);
        }
        lemma_read_continued(x, q, rp);
        assert((x + rs).drop_last() =~= x + rp);
        assert((x + rs).last() == rs.last());
        let t = rs.last();
        assert(plain_line(rs[rs.len() - 1]));
        lemma_trim_plain(t);
        let st = read_lines(x + rp);
        assert(st.0.len() > 0 && st.0.last().0 == "assistant"@);
        assert(st.0.last().1 + "\n"@ + t =~= q.last().1 + continued(rs));
        assert(st.0.update(st.0.len() - 1, ("assistant"@, st.0.last().1 + "\n"@ + t)) =~= q.drop_last().push(
            ("assistant"@, q.last().1 + continued(rs)),
        ));
    }
}

proof fn lemma_join_continued(ps: Seq<Seq<char>>)
    requires
        ps.len() >= 1,
    ensures
        join(ps, "\n"@) == ps[0] + continued(ps.skip(1)),
    decreases ps.len(),
{
    if ps.len() == 1 {
        assert(ps.skip(1) =~= Seq::<Seq<char>>::empty());
        assert(ps[0] + continued(ps.skip(1)) =~= ps[0]);
    } else {
        let pp = ps.drop_last();
        lemma_join_continued(pp);
        assert(ps.skip(1).drop_last() =~= pp.skip(1));
        assert(ps.skip(1).last() == ps.last());
        assert(pp[0] == ps[0]);
        assert(ps[0] + continued(pp.skip(1)) + "\n"@ + ps.last() =~= ps[0] + (continued(pp.skip(1)) + "\n"@
            + ps.last()));
    }
}

/// Reading the written lines of alternating messages (replies cut at their
/// line breaks) gives the messages back, with no user turn left open.
proof fn lemma_read_flat_lines(ms: Seq<MessageView>)
    requires
        alternating_replies(ms),
    ensures
        read_lines(flat_lines(transcript_lines(ms))) == (ms, Seq::<char>::empty(), false),
    decreases ms.len(),
{
    reveal_strlit("> ");
    let n = ms.len();
    if n == 0 {
        assert(transcript_lines(ms) =~= Seq::<Seq<char>>::empty());
        assert(flat_lines(transcript_lines(ms)) =~= Seq::<Seq<char>>::empty());
        assert(ms =~= Seq::<MessageView>::empty());
    } else {
        lemma_flat_back(ms);
        let k: int = if n % 2 == 0 {
            n - 2
        } else {
            n - 1
        };
        let p = ms.take(k);
        lemma_alternating_prefix(ms, k);
        lemma_read_flat_lines(p);
        let before = flat_lines(transcript_lines(p));
        let u = ms[k];
        assert(k % 2 == 0);
        assert(u.0 == "user"@);
        assert(plain_line(u.1));
        lemma_trim_plain(u.1);
        let ul = "> "@ + u.1;
        assert(ul[0] == '>');
        assert(ul.last() == u.1.last());
        lemma_trim_plain(ul);
        assert(starts_with(ul, "> "@)) by {
            assert(ul.take(2) =~= "> "@);
        }
        assert(ul.skip(2) =~= u.1);
        let l1 = before.push(ul);
        assert(l1.drop_last() =~= before);
        assert(read_lines(l1) == (p, u.1, true));
        let e = Seq::<char>::empty();
        assert(trim(e) =~= e);
        if n % 2 == 0 {
            let a = ms[n - 1];
            assert(a.0 == "assistant"@);
            assert(reply_lines_ok(a.1));
            let ps = crate::text::split_on(a.1, '\n');
            crate::text::lemma_split_on_nonempty(a.1, '\n');
            let a0 = ps[0];
            assert(plain_line(ps[0]) && !starts_with(ps[0], "> "@));
            lemma_trim_plain(a0);
            let l2 = l1.push(a0);
            assert(l2.drop_last() =~= l1);
            let q = p.push(("user"@, u.1)).push(("assistant"@, a0));
            assert(read_lines(l2) == (q, e, false));
            let rest = ps.skip(1);
            assert forall|i: int| 0 <= i < rest.len() implies plain_line(#[trigger] rest[i]) && !starts_with(
                rest[i],
                "> "@,
            ) by {
                assert(rest[i] == ps[i + 1]);
            }
            lemma_read_continued(l2, q, rest);
            lemma_join_continued(ps);
            lemma_join_split(a.1);
            assert(q.drop_last().push(("assistant"@, q.last().1 + continued(rest))) =~= ms) by {
                assert(q.last().1 + continued(rest) == a.1);
                assert(p.push(("user"@, u.1)).push(a) =~= ms);
            }
            let l3 = (l2 + rest).push(e);
            assert(l3.drop_last() =~= l2 + rest);
            assert(l3 =~= flat_lines(transcript_lines(ms)));
        } else {
            let l2 = l1.push(e);
            assert(l2.drop_last() =~= l1);
            assert(l2 =~= flat_lines(transcript_lines(ms)));
            assert(p.push(("user"@, u.1)) =~= ms);
        }
    }
}

/// Writing alternating messages as a transcript and reading it back gives
/// the same messages, also when assistant replies span several lines:
/// every line after a reply's first continues that reply.  This holds when
/// the messages open with a user turn, number at least two, each user
/// text is one non-empty line and each reply line is non-empty, with no
/// white space at either end, and no reply line opens with `> `.
pub proof fn lemma_transcript_round_trip_multiline(ms: Seq<MessageView>)
    requires
        ms.len() >= 2,
        alternating_replies(ms),
    ensures
        transcript_messages(transcript_spec(ms)) == Some(ms),
{
    reveal_strlit("\n");
    let tl = transcript_lines(ms);
    let f = flat_lines(tl);
    lemma_flat_shape(ms);
    lemma_transcript_lines_back_roles(ms);
    assert(tl.len() >= 1);
    lemma_join_flat(tl);
    assert("\n"@ =~= seq!['\n']);
    assert forall|i: int| 0 <= i < f.len() implies no_newline(#[trigger] f[i]) by {
        assert(written_line(f[i]));
    }
    lemma_split_join(f);
    let s = transcript_spec(ms);
    let q = f.drop_last();
    assert(s == join(q, seq!['\n']) + seq!['\n'] + f.last());
    assert(s.len() > 0 && s.last() == '\n');
    assert(crate::text::is_ws('\r'));
    assert(crate::text::lines(s) =~= q) by {
        assert forall|i: int| 0 <= i < q.len() implies crate::text::strip_cr(#[trigger] q[i]) == q[i] by {
            assert(q[i] == f[i]);
            assert(written_line(f[i]));
        }
    }
    lemma_read_flat_lines(ms);
    assert(q.push(f.last()) =~= f);
    assert(flush_user(read_lines(q)).0 == read_lines(f).0);
}



// ---------------------------------------------------------------------------
// Content of messages
// ---------------------------------------------------------------------------

/// What an element of a content array contributes: a string (trimmed), or
/// the (trimmed) `text` of a `{"type": "text"}` block.
pub open spec fn content_item(item: Json) -> Option<Seq<char>> {
    match item {
        Json::Str(s) => Some(trim(s@)),
        Json::Object(_) => if as_str(get(item, "type"@)) == Some("text"@) {
            match as_str(get(item, "text"@)) {
                Some(t) => Some(trim(t)),
                None => None,
            }
        } else {
            None
        },
        _ => None,
    }
}

pub open spec fn content_items(items: Seq<Json>) -> Seq<Seq<char>>
    decreases items.len(),
{
    if items.len() == 0 {
        Seq::empty()
    } else {
        let p = content_items(items.drop_last());
        match content_item(items.last()) {
            Some(t) => p.push(t),
            None => p,
        }
    }
}

/// The text of a message content: a string (trimmed), the contributions of
/// an array joined by spaces, or the trimmed `text` of an object.
pub open spec fn content_text(content: Json) -> Seq<char> {
    match content {
        Json::Str(s) => trim(s@),
        Json::Array(v) => join(content_items(v@), " "@),
        Json::Object(_) => match as_str(get(content, "text"@)) {
            Some(t) => trim(t),
            None => Seq::empty(),
        },
        _ => Seq::empty(),
    }
}

pub(crate) fn content_item_exec(item: &Json) -> (r: Option<String>)
    ensures
        match r {
            Some(s) => content_item(*item) == Some(s@),
            None => content_item(*item) is None,
        },
{
    match item {
        Json::Str(s) => Some(trim_str(s.as_str())),
        Json::Object(_) => {
            let ty = json_as_str(json_get(item, "type"));
            let is_text = match ty {
                Some(t) => str_eq(t, "text"),
                None => false,
            };
            if is_text {
                match json_as_str(json_get(item, "text")) {
                    Some(t) => Some(trim_str(t)),
                    None => None,
                }
            } else {
                None
            }
        },
        _ => None,
    }
}

/// The text of a message content.
pub fn extract_content_to_string(content: &Json) -> (r: String)
    ensures
        r@ == content_text(*content),
{
    match content {
        Json::Str(s) => trim_str(s.as_str()),
        Json::Array(items) => {
            let mut parts: Vec<String> = Vec::new();
            let mut k: usize = 0;
            while k < items.len()
                invariant
                    k <= items@.len(),
                    str_views(parts@) == content_items(items@.take(k as int)),
                decreases items.len() - k,
            {
                proof {
                    assert(items@.take(k + 1).drop_last() =~= items@.take(k as int));
                }
                let ghost before = parts@;
                match content_item_exec(&items[k]) {
                    Some(t) => {
                        parts.push(t);
                        proof {
                            assert(str_views(parts@) =~= str_views(before).push(parts@.last()@));
                        }
                    },
                    None => {},
                }
                k += 1;
            }
            proof {
                assert(items@.take(items@.len() as int) =~= items@);
            }
            join_strings(&parts, " ")
        },
        Json::Object(_) => match json_as_str(json_get(content, "text")) {
            Some(t) => trim_str(t),
            None => String::new(),
        },
        _ => String::new(),
    }
}

// ---------------------------------------------------------------------------
// JSON lines
// ---------------------------------------------------------------------------

/// The non-blank lines of trimmed content.
pub open spec fn nonblank(ls: Seq<Seq<char>>) -> Seq<Seq<char>>
    decreases ls.len(),
{
    if ls.len() == 0 {
        Seq::empty()
    } else if trim(ls.last()).len() == 0 {
        nonblank(ls.drop_last())
    } else {
        nonblank(ls.drop_last()).push(ls.last())
    }
}

/// The lines a JSONL parser reads: the trimmed content split on `'\n'`,
/// blank lines dropped.
pub open spec fn jsonl_lines(content: Seq<char>) -> Seq<Seq<char>> {
    nonblank(crate::text::split_on(trim(content), '\n'))
}

/// Split content into the lines a JSONL parser reads.
pub fn split_jsonl_lines(content: &str) -> (r: Vec<String>)
    ensures
        str_views(r@) == jsonl_lines(content@),
{
    let t = trim_str(content);
    let tc = chars_of(t.as_str());
    let parts = crate::text::split_chars(tc.as_slice(), '\n');
    let ghost ps = crate::text::split_on(t@, '\n');
    let mut r: Vec<String> = Vec::new();
    let mut k: usize = 0;
    while k < parts.len()
        invariant
            k <= parts@.len(),
            parts@.len() == ps.len(),
            ps == crate::text::split_on(trim(content@), '\n'),
            forall|i: int| 0 <= i < parts@.len() ==> #[trigger] parts@[i]@ == ps[i],
            str_views(r@) == nonblank(ps.take(k as int)),
        decreases parts.len() - k,
    {
        proof {
            assert(ps.take(k + 1).drop_last() =~= ps.take(k as int));
            assert(ps.take(k + 1).last() == parts@[k as int]@);
        }
        let line = string_from_chars(parts[k].as_slice());
        let tl = trim_str(line.as_str());
        if !tl.as_str().is_empty() {
            let ghost before = r@;
            r.push(line);
            proof {
                assert(str_views(r@) =~= str_views(before).push(parts@[k as int]@));
            }
        }
        k += 1;
    }
    proof {
        assert(ps.take(ps.len() as int) =~= ps);
    }
    r
}

/// The first present of three members.
pub open spec fn get_first3(j: Json, a: Seq<char>, b: Seq<char>, c: Seq<char>) -> Option<Json> {
    match get(j, a) {
        Some(v) => Some(v),
        None => get_either(j, b, c),
    }
}

pub(crate) fn json_get_first3<'a>(j: &'a Json, a: &str, b: &str, c: &str) -> (r: Option<&'a Json>)
    ensures
        opt_deref(r) == get_first3(*j, a@, b@, c@),
{
    match json_get(j, a) {
        Some(v) => Some(v),
        None => json_get_either(j, b, c),
    }
}

pub(crate) fn push_msg(ms: &mut Vec<(String, String)>, role: &str, text: String)
    ensures
        msg_views(final(ms)@) == msg_views(old(ms)@).push((role@, text@)),
{
    let ghost before = ms@;
    ms.push((owned(role), text));
    proof {
        assert(msg_views(ms@) =~= msg_views(before).push((role@, text@)));
    }
}

/// The transcript of the messages, when there are at least two.
pub open spec fn transcript_if_two(ms: Seq<MessageView>) -> Option<Seq<char>> {
    if ms.len() >= 2 {
        Some(transcript_spec(ms))
    } else {
        None
    }
}

pub(crate) fn transcript_if_two_exec(ms: &Vec<(String, String)>) -> (r: Option<String>)
    ensures
        match r {
            Some(t) => transcript_if_two(msg_views(ms@)) == Some(t@),
            None => transcript_if_two(msg_views(ms@)) is None,
        },
{
    if ms.len() >= 2 {
        Some(messages_to_transcript(ms))
    } else {
        None
    }
}

// ---------------------------------------------------------------------------
// Pi JSONL
// ---------------------------------------------------------------------------

/// A line marks Pi JSONL: an object whose `type` (or `kind`) is `user`,
/// `pi` or `assistant` and that has a `text`, `message` or `content`.
pub open spec fn pi_marker(line: Option<Json>) -> bool {
    match line {
        Some(j) => j is Object && {
            let role = as_str(get_either(j, "type"@, "kind"@));
            (role == Some("user"@) || role == Some("pi"@) || role == Some("assistant"@)) && (has_key(
                j,
                "text"@,
            ) || has_key(j, "message"@) || has_key(j, "content"@))
        },
        None => false,
    }
}

pub open spec fn any_pi_marker(ls: Seq<Option<Json>>) -> bool
    decreases ls.len(),
{
    ls.len() > 0 && (any_pi_marker(ls.drop_last()) || pi_marker(ls.last()))
}

/// The message a Pi line gives: its trimmed `text` (or `message`, or
/// `content`) under the role its `type` (or `kind`) names.
pub open spec fn pi_message(line: Option<Json>) -> Option<MessageView> {
    match line {
        Some(j) => if j is Object {
            let role_raw = match as_str(get_either(j, "type"@, "kind"@)) {
                Some(r) => r,
                None => "user"@,
            };
            let text = trim(
                match as_str(get_first3(j, "text"@, "message"@, "content"@)) {
                    Some(t) => t,
                    None => Seq::empty(),
                },
            );
            if text.len() == 0 {
                None
            } else if role_raw == "user"@ || role_raw == "human"@ {
                Some(("user"@, text))
            } else if role_raw == "pi"@ || role_raw == "assistant"@ || role_raw == "ai"@ {
                Some(("assistant"@, text))
            } else {
                None
            }
        } else {
            None
        },
        None => None,
    }
}

pub open spec fn pi_messages(ls: Seq<Option<Json>>) -> Seq<MessageView>
    decreases ls.len(),
{
    if ls.len() == 0 {
        Seq::empty()
    } else {
        match pi_message(ls.last()) {
            Some(m) => pi_messages(ls.drop_last()).push(m),
            None => pi_messages(ls.drop_last()),
        }
    }
}

/// Pi JSONL, given its lines decoded: recognised by a marker among the
/// first twenty lines.
pub open spec fn pi_spec(ls: Seq<Option<Json>>) -> Option<Seq<char>> {
    let head = if ls.len() > 20 {
        ls.take(20)
    } else {
        ls
    };
    if ls.len() == 0 || !any_pi_marker(head) {
        None
    } else {
        transcript_if_two(pi_messages(ls))
    }
}

fn pi_marker_exec(line: &Option<Json>) -> (r: bool)
    ensures
        r == pi_marker(*line),
{
    match line {
        Some(j) => match j {
            Json::Object(_) => {
                let role = json_as_str(json_get_either(j, "type", "kind"));
                let is_role = match role {
                    Some(r) => str_eq(r, "user") || str_eq(r, "pi") || str_eq(r, "assistant"),
                    None => false,
                };
                is_role && (json_has_key(j, "text") || json_has_key(j, "message") || json_has_key(j, "content"))
            },
            _ => false,
        },
        None => false,
    }
}

fn pi_message_exec(line: &Option<Json>) -> (r: Option<(String, String)>)
    ensures
        match r {
            Some(m) => pi_message(*line) == Some((m.0@, m.1@)),
            None => pi_message(*line) is None,
        },
{
    match line {
        Some(j) => match j {
            Json::Object(_) => {
                let role_raw = match json_as_str(json_get_either(j, "type", "kind")) {
                    Some(r) => r,
                    None => "user",
                };
                let text = match json_as_str(json_get_first3(j, "text", "message", "content")) {
                    Some(t) => trim_str(t),
                    None => {
                        proof {
                            reveal_strlit("");
                        }
                        trim_str("")
                    },
                };
                if text.as_str().is_empty() {
                    None
                } else if str_eq(role_raw, "user") || str_eq(role_raw, "human") {
                    Some((owned("user"), text))
                } else if str_eq(role_raw, "pi") || str_eq(role_raw, "assistant") || str_eq(role_raw, "ai") {
                    Some((owned("assistant"), text))
                } else {
                    None
                }
            },
            _ => None,
        },
        None => None,
    }
}

/// Parse Pi JSONL (lines decoded; `None` for a line that is not JSON).
pub fn try_pi_jsonl(lines: &[Option<Json>]) -> (r: Option<String>)
    ensures
        match r {
            Some(t) => pi_spec(lines@) == Some(t@),
            None => pi_spec(lines@) is None,
        },
{
    if lines.len() == 0 {
        return None;
    }
    let n = if lines.len() > 20 {
        20
    } else {
        lines.len()
    };
    let ghost head = if lines@.len() > 20 {
        lines@.take(20)
    } else {
        lines@
    };
    let mut found = false;
    let mut k: usize = 0;
    while k < n
        invariant
            k <= n <= lines@.len(),
            n == head.len(),
            head == (if lines@.len() > 20 { lines@.take(20) } else { lines@ }),
            found == any_pi_marker(head.take(k as int)),
        decreases n - k,
    {
        proof {
            assert(head.take(k + 1).drop_last() =~= head.take(k as int));
            assert(head.take(k + 1).last() == lines@[k as int]);
        }
        found = found || pi_marker_exec(&lines[k]);
        k += 1;
    }
    proof {
        assert(head.take(n as int) =~= head);
    }
    if !found {
        return None;
    }
    let mut ms: Vec<(String, String)> = Vec::new();
    let mut i: usize = 0;
    while i < lines.len()
        invariant
            i <= lines@.len(),
            msg_views(ms@) == pi_messages(lines@.take(i as int)),
        decreases lines.len() - i,
    {
        proof {
            assert(lines@.take(i + 1).drop_last() =~= lines@.take(i as int));
            assert(lines@.take(i + 1).last() == lines@[i as int]);
        }
        match pi_message_exec(&lines[i]) {
            Some(m) => {
                let (role, text) = m;
                push_msg(&mut ms, role.as_str(), text);
            },
            None => {},
        }
        i += 1;
    }
    proof {
        assert(lines@.take(lines@.len() as int) =~= lines@);
    }
    transcript_if_two_exec(&ms)
}

// ---------------------------------------------------------------------------
// Shared pieces of the JSONL parsers
// ---------------------------------------------------------------------------

/// The `text` strings of the object elements of an array.
pub open spec fn object_texts(items: Seq<Json>, key: Seq<char>) -> Seq<Seq<char>>
    decreases items.len(),
{
    if items.len() == 0 {
        Seq::empty()
    } else {
        let p = object_texts(items.drop_last(), key);
        let it = items.last();
        if it is Object {
            match as_str(get(it, key)) {
                Some(t) => p.push(t),
                None => p,
            }
        } else {
            p
        }
    }
}

pub(crate) fn object_texts_exec(items: &Vec<Json>, key: &str) -> (r: Vec<String>)
    ensures
        str_views(r@) == object_texts(items@, key@),
{
    let mut out: Vec<String> = Vec::new();
    let mut k: usize = 0;
    while k < items.len()
        invariant
            k <= items@.len(),
            str_views(out@) == object_texts(items@.take(k as int), key@),
        decreases items.len() - k,
    {
        proof {
            assert(items@.take(k + 1).drop_last() =~= items@.take(k as int));
            assert(items@.take(k + 1).last() == items@[k as int]);
        }
        let it = &items[k];
        match it {
            Json::Object(_) => match json_as_str(json_get(it, key)) {
                Some(t) => {
                    let ghost before = out@;
                    out.push(owned(t));
                    proof {
                        assert(str_views(out@) =~= str_views(before).push(t@));
                    }
                },
                None => {},
            },
            _ => {},
        }
        k += 1;
    }
    proof {
        assert(items@.take(items@.len() as int) =~= items@);
    }
    out
}

/// The string `role` member, else the string `type` member.
pub open spec fn role_or_type(j: Json) -> Option<Seq<char>> {
    match as_str(get(j, "role"@)) {
        Some(r) => Some(r),
        None => as_str(get(j, "type"@)),
    }
}

pub(crate) fn role_or_type_exec<'a>(j: &'a Json) -> (r: Option<&'a str>)
    ensures
        match r {
            Some(s) => role_or_type(*j) == Some(s@),
            None => role_or_type(*j) is None,
        },
{
    match json_as_str(json_get(j, "role")) {
        Some(r) => Some(r),
        None => json_as_str(json_get(j, "type")),
    }
}

// ---------------------------------------------------------------------------
// Gemini CLI JSONL
// ---------------------------------------------------------------------------

/// A line marks Gemini CLI JSONL: an object whose role (or type) is `user`,
/// `model` or `system` and that has `content` or `parts`.
pub open spec fn gemini_marker(line: Option<Json>) -> bool {
    match line {
        Some(j) => j is Object && {
            let role = role_or_type(j);
            (role == Some("user"@) || role == Some("model"@) || role == Some("system"@)) && (has_key(
                j,
                "content"@,
            ) || has_key(j, "parts"@))
        },
        None => false,
    }
}

pub open spec fn any_gemini_marker(ls: Seq<Option<Json>>) -> bool
    decreases ls.len(),
{
    ls.len() > 0 && (any_gemini_marker(ls.drop_last()) || gemini_marker(ls.last()))
}

/// The text of a Gemini line: its string `content`, or the `text` parts
/// joined by newlines (when there is one).
pub open spec fn gemini_text(j: Json) -> Option<Seq<char>> {
    match as_str(get(j, "content"@)) {
        Some(c) => Some(c),
        None => match as_array(get(j, "parts"@)) {
            Some(ps) => {
                let buf = object_texts(ps, "text"@);
                if buf.len() == 0 {
                    None
                } else {
                    Some(join(buf, "\n"@))
                }
            },
            None => None,
        },
    }
}

/// The message of a Gemini line: `model`/`assistant`/`ai` speak as the
/// assistant, `system` rows are dropped, anything else is the user.
pub open spec fn gemini_message(line: Option<Json>) -> Option<MessageView> {
    match line {
        Some(j) => if j is Object {
            match gemini_text(j) {
                Some(t0) => {
                    let text = trim(t0);
                    let role_raw = match role_or_type(j) {
                        Some(r) => r,
                        None => "user"@,
                    };
                    if text.len() == 0 || role_raw == "system"@ {
                        None
                    } else if role_raw == "model"@ || role_raw == "assistant"@ || role_raw == "ai"@ {
                        Some(("assistant"@, text))
                    } else {
                        Some(("user"@, text))
                    }
                },
                None => None,
            }
        } else {
            None
        },
        None => None,
    }
}

pub open spec fn gemini_messages(ls: Seq<Option<Json>>) -> Seq<MessageView>
    decreases ls.len(),
{
    if ls.len() == 0 {
        Seq::empty()
    } else {
        match gemini_message(ls.last()) {
            Some(m) => gemini_messages(ls.drop_last()).push(m),
            None => gemini_messages(ls.drop_last()),
        }
    }
}

pub open spec fn gemini_cli_spec(ls: Seq<Option<Json>>) -> Option<Seq<char>> {
    if ls.len() == 0 || !any_gemini_marker(ls) {
        None
    } else {
        transcript_if_two(gemini_messages(ls))
    }
}

fn gemini_marker_exec(line: &Option<Json>) -> (r: bool)
    ensures
        r == gemini_marker(*line),
{
    match line {
        Some(j) => match j {
            Json::Object(_) => {
                let is_role = match role_or_type_exec(j) {
                    Some(r) => str_eq(r, "user") || str_eq(r, "model") || str_eq(r, "system"),
                    None => false,
                };
                is_role && (json_has_key(j, "content") || json_has_key(j, "parts"))
            },
            _ => false,
        },
        None => false,
    }
}

fn gemini_message_exec(line: &Option<Json>) -> (r: Option<(String, String)>)
    ensures
        match r {
            Some(m) => gemini_message(*line) == Some((m.0@, m.1@)),
            None => gemini_message(*line) is None,
        },
{
    let j = match line {
        Some(j) => j,
        None => {
            return None;
        },
    };
    match j {
        Json::Object(_) => {},
        _ => {
            return None;
        },
    }
    let t0: String = match json_as_str(json_get(j, "content")) {
        Some(c) => owned(c),
        None => match json_as_array(json_get(j, "parts")) {
            Some(ps) => {
                let buf = object_texts_exec(ps, "text");
                if buf.len() == 0 {
                    return None;
                }
                join_strings(&buf, "\n")
            },
            None => {
                return None;
            },
        },
    };
    let text = trim_str(t0.as_str());
    let role_raw = match role_or_type_exec(j) {
        Some(r) => r,
        None => "user",
    };
    if text.as_str().is_empty() || str_eq(role_raw, "system") {
        None
    } else if str_eq(role_raw, "model") || str_eq(role_raw, "assistant") || str_eq(role_raw, "ai") {
        Some((owned("assistant"), text))
    } else {
        Some((owned("user"), text))
    }
}

/// Parse Gemini CLI JSONL (lines decoded; `None` for a line that is not
/// JSON): `{role, content}` or `{type, parts: [{text}]}` rows.
pub fn try_gemini_cli_jsonl(lines: &[Option<Json>]) -> (r: Option<String>)
    ensures
        match r {
            Some(t) => gemini_cli_spec(lines@) == Some(t@),
            None => gemini_cli_spec(lines@) is None,
        },
{
    if lines.len() == 0 {
        return None;
    }
    let mut found = false;
    let mut k: usize = 0;
    while k < lines.len()
        invariant
            k <= lines@.len(),
            found == any_gemini_marker(lines@.take(k as int)),
        decreases lines.len() - k,
    {
        proof {
            assert(lines@.take(k + 1).drop_last() =~= lines@.take(k as int));
            assert(lines@.take(k + 1).last() == lines@[k as int]);
        }
        found = found || gemini_marker_exec(&lines[k]);
        k += 1;
    }
    proof {
        assert(lines@.take(lines@.len() as int) =~= lines@);
    }
    if !found {
        return None;
    }
    let mut ms: Vec<(String, String)> = Vec::new();
    let mut i: usize = 0;
    while i < lines.len()
        invariant
            i <= lines@.len(),
            msg_views(ms@) == gemini_messages(lines@.take(i as int)),
        decreases lines.len() - i,
    {
        proof {
            assert(lines@.take(i + 1).drop_last() =~= lines@.take(i as int));
            assert(lines@.take(i + 1).last() == lines@[i as int]);
        }
        match gemini_message_exec(&lines[i]) {
            Some(m) => {
                let (role, text) = m;
                push_msg(&mut ms, role.as_str(), text);
            },
            None => {},
        }
        i += 1;
    }
    proof {
        assert(lines@.take(lines@.len() as int) =~= lines@);
    }
    transcript_if_two_exec(&ms)
}

// ---------------------------------------------------------------------------
// Codex JSONL
// ---------------------------------------------------------------------------

/// A line marks Codex JSONL: an object of type `session_meta`.
pub open spec fn codex_marker(line: Option<Json>) -> bool {
    match line {
        Some(j) => j is Object && as_str(get(j, "type"@)) == Some("session_meta"@),
        None => false,
    }
}

pub open spec fn any_codex_marker(ls: Seq<Option<Json>>) -> bool
    decreases ls.len(),
{
    ls.len() > 0 && (any_codex_marker(ls.drop_last()) || codex_marker(ls.last()))
}

/// What a Codex line gives: `None` when the whole export is rejected (a
/// line that is JSON but not an object; an `event_msg` without an object
/// `payload`, a string `payload.type` or a `payload.message`), otherwise
/// the message it contributes, if any.  Flat rows are
/// `event_msg/user_message` and `event_msg/agent_message` with a `text`;
/// nested rows are `event_msg` with a `payload` of type `user_message` or
/// `agent_message`.
pub open spec fn codex_line(line: Option<Json>) -> Option<Option<MessageView>> {
    match line {
        None => Some(None),
        Some(j) => if !(j is Object) {
            None
        } else {
            match as_str(get(j, "type"@)) {
                None => Some(None),
                Some(t) => if t == "event_msg/user_message"@ || t == "event_msg/agent_message"@ {
                    let text = trim(
                        match as_str(get(j, "text"@)) {
                            Some(x) => x,
                            None => Seq::empty(),
                        },
                    );
                    if text.len() == 0 {
                        Some(None)
                    } else if t == "event_msg/user_message"@ {
                        Some(Some(("user"@, text)))
                    } else {
                        Some(Some(("assistant"@, text)))
                    }
                } else if t == "event_msg"@ {
                    match as_object(get(j, "payload"@)) {
                        None => None,
                        Some(p) => match as_str(get(p, "type"@)) {
                            None => None,
                            Some(nt) => if nt != "user_message"@ && nt != "agent_message"@ {
                                Some(None)
                            } else {
                                match get(p, "message"@) {
                                    None => None,
                                    Some(mc) => {
                                        let text = content_text(mc);
                                        if text.len() == 0 {
                                            Some(None)
                                        } else if nt == "user_message"@ {
                                            Some(Some(("user"@, text)))
                                        } else {
                                            Some(Some(("assistant"@, text)))
                                        }
                                    },
                                }
                            },
                        },
                    }
                } else {
                    Some(None)
                },
            }
        },
    }
}

pub open spec fn codex_messages(ls: Seq<Option<Json>>) -> Option<Seq<MessageView>>
    decreases ls.len(),
{
    if ls.len() == 0 {
        Some(Seq::empty())
    } else {
        match codex_messages(ls.drop_last()) {
            None => None,
            Some(ms) => match codex_line(ls.last()) {
                None => None,
                Some(None) => Some(ms),
                Some(Some(m)) => Some(ms.push(m)),
            },
        }
    }
}

pub open spec fn codex_spec(ls: Seq<Option<Json>>) -> Option<Seq<char>> {
    if !any_codex_marker(ls) {
        None
    } else {
        match codex_messages(ls) {
            None => None,
            Some(ms) => transcript_if_two(ms),
        }
    }
}

fn codex_marker_exec(line: &Option<Json>) -> (r: bool)
    ensures
        r == codex_marker(*line),
{
    match line {
        Some(j) => match j {
            Json::Object(_) => match json_as_str(json_get(j, "type")) {
                Some(t) => str_eq(t, "session_meta"),
                None => false,
            },
            _ => false,
        },
        None => false,
    }
}

fn codex_line_exec(line: &Option<Json>) -> (r: Option<Option<(String, String)>>)
    ensures
        match r {
            None => codex_line(*line) is None,
            Some(None) => codex_line(*line) == Some(None::<MessageView>),
            Some(Some(m)) => codex_line(*line) == Some(Some((m.0@, m.1@))),
        },
{
    let j = match line {
        None => {
            return Some(None);
        },
        Some(j) => j,
    };
    match j {
        Json::Object(_) => {},
        _ => {
            return None;
        },
    }
    let t = match json_as_str(json_get(j, "type")) {
        None => {
            return Some(None);
        },
        Some(t) => t,
    };
    if str_eq(t, "event_msg/user_message") || str_eq(t, "event_msg/agent_message") {
        let text = match json_as_str(json_get(j, "text")) {
            Some(x) => trim_str(x),
            None => String::new(),
        };
        if text.as_str().is_empty() {
            Some(None)
        } else if str_eq(t, "event_msg/user_message") {
            Some(Some((owned("user"), text)))
        } else {
            Some(Some((owned("assistant"), text)))
        }
    } else if str_eq(t, "event_msg") {
        let p = match json_as_object(json_get(j, "payload")) {
            None => {
                return None;
            },
            Some(p) => p,
        };
        let nt = match json_as_str(json_get(p, "type")) {
            None => {
                return None;
            },
            Some(nt) => nt,
        };
        if !str_eq(nt, "user_message") && !str_eq(nt, "agent_message") {
            return Some(None);
        }
        let mc = match json_get(p, "message") {
            None => {
                return None;
            },
            Some(mc) => mc,
        };
        let text = extract_content_to_string(mc);
        if text.as_str().is_empty() {
            Some(None)
        } else if str_eq(nt, "user_message") {
            Some(Some((owned("user"), text)))
        } else {
            Some(Some((owned("assistant"), text)))
        }
    } else {
        Some(None)
    }
}

/// Parse Codex JSONL (lines decoded; `None` for a line that is not JSON),
/// recognised by a `session_meta` row.
pub fn try_codex_jsonl(lines: &[Option<Json>]) -> (r: Option<String>)
    ensures
        match r {
            Some(t) => codex_spec(lines@) == Some(t@),
            None => codex_spec(lines@) is None,
        },
{
    let mut found = false;
    let mut k: usize = 0;
    while k < lines.len()
        invariant
            k <= lines@.len(),
            found == any_codex_marker(lines@.take(k as int)),
        decreases lines.len() - k,
    {
        proof {
            assert(lines@.take(k + 1).drop_last() =~= lines@.take(k as int));
            assert(lines@.take(k + 1).last() == lines@[k as int]);
        }
        found = found || codex_marker_exec(&lines[k]);
        k += 1;
    }
    proof {
        assert(lines@.take(lines@.len() as int) =~= lines@);
    }
    if !found {
        return None;
    }
    let mut ms: Vec<(String, String)> = Vec::new();
    let mut i: usize = 0;
    while i < lines.len()
        invariant
            i <= lines@.len(),
            codex_messages(lines@.take(i as int)) == Some(msg_views(ms@)),
        decreases lines.len() - i,
    {
        proof {
            assert(lines@.take(i + 1).drop_last() =~= lines@.take(i as int));
            assert(lines@.take(i + 1).last() == lines@[i as int]);
        }
        match codex_line_exec(&lines[i]) {
            None => {
                proof {
                    lemma_codex_abort_sticks(lines@, i as int);
                }
                return None;
            },
            Some(None) => {},
            Some(Some(m)) => {
                let (role, text) = m;
                push_msg(&mut ms, role.as_str(), text);
            },
        }
        i += 1;
    }
    proof {
        assert(lines@.take(lines@.len() as int) =~= lines@);
    }
    transcript_if_two_exec(&ms)
}

proof fn lemma_codex_abort_sticks(ls: Seq<Option<Json>>, i: int)
    requires
        0 <= i < ls.len(),
        codex_messages(ls.take(i + 1)) is None,
    ensures
        codex_messages(ls) is None,
    decreases ls.len() - i,
{
    if i + 1 < ls.len() {
        assert(ls.take(i + 2).drop_last() =~= ls.take(i + 1));
        lemma_codex_abort_sticks(ls, i + 1);
    } else {
        assert(ls.take(i + 1) =~= ls);
    }
}

// ---------------------------------------------------------------------------
// SoulForge JSONL
// ---------------------------------------------------------------------------

pub open spec fn has_soulforge_keys(j: Json) -> bool {
    has_key(j, "segments"@) || has_key(j, "toolCalls"@) || has_key(j, "durationMs"@)
}

/// A line marks SoulForge JSONL: an object with `segments`, `toolCalls` or
/// `durationMs`, at top level or in its `message` object.
pub open spec fn soulforge_marker(line: Option<Json>) -> bool {
    match line {
        Some(j) => j is Object && (has_soulforge_keys(j) || match as_object(get(j, "message"@)) {
            Some(m) => has_soulforge_keys(m),
            None => false,
        }),
        None => false,
    }
}

pub open spec fn any_soulforge_marker(ls: Seq<Option<Json>>) -> bool
    decreases ls.len(),
{
    ls.len() > 0 && (any_soulforge_marker(ls.drop_last()) || soulforge_marker(ls.last()))
}

/// The text of a SoulForge row: `None` when the export is rejected (a
/// `text` member that should be there is missing), else the text, if it is
/// a string.  In a `message` object the text is its `segments` texts joined
/// by spaces, when that is not empty, else its `text`; without a `message`
/// object it is the row's `text`.
pub open spec fn soulforge_text(j: Json) -> Option<Option<Seq<char>>> {
    match as_object(get(j, "message"@)) {
        Some(msg) => {
            let from_segments = match as_array(get(msg, "segments"@)) {
                Some(segs) => join(object_texts(segs, "text"@), " "@),
                None => Seq::empty(),
            };
            if as_array(get(msg, "segments"@)) is Some && from_segments.len() > 0 {
                Some(Some(from_segments))
            } else {
                match get(msg, "text"@) {
                    None => None,
                    Some(t) => Some(as_str(Some(t))),
                }
            }
        },
        None => match get(j, "text"@) {
            None => None,
            Some(t) => Some(as_str(Some(t))),
        },
    }
}

/// The role of a SoulForge row: its `role`, else its `type`, else empty.
pub open spec fn soulforge_role(j: Json) -> Seq<char> {
    match role_or_type(j) {
        Some(r) => r,
        None => Seq::empty(),
    }
}

/// An assistant's text with the names of the tools it called appended.
pub open spec fn with_tool_names(j: Json, text: Seq<char>) -> Seq<char> {
    match as_object(get(j, "message"@)) {
        Some(msg) => match as_array(get(msg, "toolCalls"@)) {
            Some(tcs) => {
                let names = object_texts(tcs, "name"@);
                if tcs.len() > 0 && names.len() > 0 {
                    text + " [tools: "@ + join(names, ", "@) + "]"@
                } else {
                    text
                }
            },
            None => text,
        },
        None => text,
    }
}

/// Reading one SoulForge row after the messages `ms`: `None` when the
/// export is rejected (a row that is JSON but not an object, or a missing
/// text), otherwise the messages after it.  Rows of an unknown role
/// alternate with the previous message.
pub open spec fn soulforge_step(ms: Seq<MessageView>, line: Option<Json>) -> Option<Seq<MessageView>> {
    match line {
        None => Some(ms),
        Some(j) => if !(j is Object) {
            None
        } else {
            match soulforge_text(j) {
                None => None,
                Some(None) => Some(ms),
                Some(Some(t0)) => {
                    let text = trim(t0);
                    let role = soulforge_role(j);
                    let final_text = if role == "assistant"@ || role == "agent"@ {
                        with_tool_names(j, text)
                    } else {
                        text
                    };
                    if text.len() == 0 || role == "system"@ {
                        Some(ms)
                    } else if role == "user"@ || role == "human"@ {
                        Some(ms.push(("user"@, final_text)))
                    } else if role == "assistant"@ || role == "ai"@ || role == "agent"@ {
                        Some(ms.push(("assistant"@, final_text)))
                    } else if ms.len() == 0 || ms.last().0 == "assistant"@ {
                        Some(ms.push(("user"@, final_text)))
                    } else {
                        Some(ms.push(("assistant"@, final_text)))
                    }
                },
            }
        },
    }
}

pub open spec fn soulforge_messages(ls: Seq<Option<Json>>) -> Option<Seq<MessageView>>
    decreases ls.len(),
{
    if ls.len() == 0 {
        Some(Seq::empty())
    } else {
        match soulforge_messages(ls.drop_last()) {
            None => None,
            Some(ms) => soulforge_step(ms, ls.last()),
        }
    }
}

pub open spec fn soulforge_spec(ls: Seq<Option<Json>>) -> Option<Seq<char>> {
    if !any_soulforge_marker(ls) {
        None
    } else {
        match soulforge_messages(ls) {
            None => None,
            Some(ms) => transcript_if_two(ms),
        }
    }
}

fn soulforge_keys_exec(j: &Json) -> (r: bool)
    ensures
        r == has_soulforge_keys(*j),
{
    json_has_key(j, "segments") || json_has_key(j, "toolCalls") || json_has_key(j, "durationMs")
}

fn soulforge_marker_exec(line: &Option<Json>) -> (r: bool)
    ensures
        r == soulforge_marker(*line),
{
    match line {
        Some(j) => match j {
            Json::Object(_) => soulforge_keys_exec(j) || match json_as_object(json_get(j, "message")) {
                Some(m) => soulforge_keys_exec(m),
                None => false,
            },
            _ => false,
        },
        None => false,
    }
}

fn soulforge_text_exec(j: &Json) -> (r: Option<Option<String>>)
    ensures
        match r {
            None => soulforge_text(*j) is None,
            Some(None) => soulforge_text(*j) == Some(None::<Seq<char>>),
            Some(Some(t)) => soulforge_text(*j) == Some(Some(t@)),
        },
{
    match json_as_object(json_get(j, "message")) {
        Some(msg) => {
            match json_as_array(json_get(msg, "segments")) {
                Some(segs) => {
                    let parts = object_texts_exec(segs, "text");
                    let joined = join_strings(&parts, " ");
                    if !joined.as_str().is_empty() {
                        return Some(Some(joined));
                    }
                },
                None => {},
            }
            match json_get(msg, "text") {
                None => None,
                Some(t) => match json_as_str(Some(t)) {
                    Some(x) => Some(Some(owned(x))),
                    None => Some(None),
                },
            }
        },
        None => match json_get(j, "text") {
            None => None,
            Some(t) => match json_as_str(Some(t)) {
                Some(x) => Some(Some(owned(x))),
                None => Some(None),
            },
        },
    }
}

fn with_tool_names_exec(j: &Json, text: String) -> (r: String)
    ensures
        r@ == with_tool_names(*j, text@),
{
    match json_as_object(json_get(j, "message")) {
        Some(msg) => match json_as_array(json_get(msg, "toolCalls")) {
            Some(tcs) => {
                let names = object_texts_exec(tcs, "name");
                if tcs.len() > 0 && names.len() > 0 {
                    let mut out = text;
                    push_str(&mut out, " [tools: ");
                    let joined = join_strings(&names, ", ");
                    push_str(&mut out, joined.as_str());
                    push_str(&mut out, "]");
                    out
                } else {
                    text
                }
            },
            None => text,
        },
        None => text,
    }
}

fn soulforge_step_exec(ms: &mut Vec<(String, String)>, line: &Option<Json>) -> (ok: bool)
    ensures
        ok ==> soulforge_step(msg_views(old(ms)@), *line) == Some(msg_views(final(ms)@)),
        !ok ==> soulforge_step(msg_views(old(ms)@), *line) is None,
{
    let j = match line {
        None => {
            return true;
        },
        Some(j) => j,
    };
    match j {
        Json::Object(_) => {},
        _ => {
            return false;
        },
    }
    let t0 = match soulforge_text_exec(j) {
        None => {
            return false;
        },
        Some(None) => {
            return true;
        },
        Some(Some(t)) => t,
    };
    let text = trim_str(t0.as_str());
    let role: &str = match role_or_type_exec(j) {
        Some(r) => r,
        None => {
            proof {
                reveal_strlit("");
            }
            ""
        },
    };
    proof {
        assert(soulforge_role(*j) == role@);
        assert(soulforge_text(*j) == Some(Some(t0@)));
        assert(text@ == trim(t0@));
    }
    if text.as_str().is_empty() || str_eq(role, "system") {
        return true;
    }
    let is_assistant_role = str_eq(role, "assistant") || str_eq(role, "agent");
    let final_text = if is_assistant_role {
        with_tool_names_exec(j, text)
    } else {
        text
    };
    if str_eq(role, "user") || str_eq(role, "human") {
        push_msg(ms, "user", final_text);
    } else if str_eq(role, "assistant") || str_eq(role, "ai") || str_eq(role, "agent") {
        push_msg(ms, "assistant", final_text);
    } else {
        let n = ms.len();
        if n == 0 || str_eq(ms[n - 1].0.as_str(), "assistant") {
            push_msg(ms, "user", final_text);
        } else {
            push_msg(ms, "assistant", final_text);
        }
    }
    true
}

/// Recognise an OpenCode SQLite database read into a buffer: its first
/// bytes are the SQLite header `"SQLite format 3"`. The header is ASCII,
/// so the text starts with those bytes exactly when it starts with those
/// characters. Such a buffer is only tagged; the sessions are read from
/// the database file itself.
pub fn try_opencode_sqlite(content: &str) -> (r: Option<String>)
    ensures
        r is Some <==> starts_with(content@, "SQLite format 3"@),
        r matches Some(tag) ==> tag@ == "opencode-sqlite"@,
{
    if crate::text::str_starts_with(content, "SQLite format 3") {
        Some(owned("opencode-sqlite"))
    } else {
        None
    }
}

/// Parse SoulForge JSONL (lines decoded; `None` for a line that is not
/// JSON), recognised by its `segments`, `toolCalls` or `durationMs` fields.
pub fn try_soulforge_jsonl(lines: &[Option<Json>]) -> (r: Option<String>)
    ensures
        match r {
            Some(t) => soulforge_spec(lines@) == Some(t@),
            None => soulforge_spec(lines@) is None,
        },
{
    let mut found = false;
    let mut k: usize = 0;
    while k < lines.len()
        invariant
            k <= lines@.len(),
            found == any_soulforge_marker(lines@.take(k as int)),
        decreases lines.len() - k,
    {
        proof {
            assert(lines@.take(k + 1).drop_last() =~= lines@.take(k as int));
            assert(lines@.take(k + 1).last() == lines@[k as int]);
        }
        found = found || soulforge_marker_exec(&lines[k]);
        k += 1;
    }
    proof {
        assert(lines@.take(lines@.len() as int) =~= lines@);
    }
    if !found {
        return None;
    }
    let mut ms: Vec<(String, String)> = Vec::new();
    let mut i: usize = 0;
    while i < lines.len()
        invariant
            i <= lines@.len(),
            soulforge_messages(lines@.take(i as int)) == Some(msg_views(ms@)),
        decreases lines.len() - i,
    {
        proof {
            assert(lines@.take(i + 1).drop_last() =~= lines@.take(i as int));
            assert(lines@.take(i + 1).last() == lines@[i as int]);
        }
        if !soulforge_step_exec(&mut ms, &lines[i]) {
            proof {
                lemma_soulforge_abort_sticks(lines@, i as int);
            }
            return None;
        }
        i += 1;
    }
    proof {
        assert(lines@.take(lines@.len() as int) =~= lines@);
    }
    transcript_if_two_exec(&ms)
}

proof fn lemma_soulforge_abort_sticks(ls: Seq<Option<Json>>, i: int)
    requires
        0 <= i < ls.len(),
        soulforge_messages(ls.take(i + 1)) is None,
    ensures
        soulforge_messages(ls) is None,
    decreases ls.len() - i,
{
    if i + 1 < ls.len() {
        assert(ls.take(i + 2).drop_last() =~= ls.take(i + 1));
        lemma_soulforge_abort_sticks(ls, i + 1);
    } else {
        assert(ls.take(i + 1) =~= ls);
    }
}

// ---------------------------------------------------------------------------
// Format detection
// ---------------------------------------------------------------------------

/// An element of a history array speaks as `user` or `assistant`.
pub open spec fn has_chat_role(items: Seq<Json>) -> bool
    decreases items.len(),
{
    items.len() > 0 && (has_chat_role(items.drop_last()) || {
        let r = as_str(get(items.last(), "role"@));
        items.last() is Object && (r == Some("user"@) || r == Some("assistant"@))
    })
}

/// The format a whole-document JSON value shows, if any: an object of type
/// `conversation` (agent-CLI), with `messages`/`chat_messages` (web-chat
/// export), `mapping` (ChatGPT), `contents` (Gemini AI Studio) or a role-based
/// `history`/`chatHistory` (Continue.dev); an array whose first element is
/// a Slack `message` or holds a `messages`/`contents` array (Gemini AI
/// Studio).
pub open spec fn whole_json_format(data: Json) -> Option<Seq<char>> {
    match data {
        Json::Object(_) => if as_str(get(data, "type"@)) == Some("conversation"@) {
            Some("claude_code_jsonl"@)
        } else if has_key(data, "messages"@) || has_key(data, "chat_messages"@) {
            Some("claude_ai_json"@)
        } else if has_key(data, "mapping"@) {
            Some("chatgpt_json"@)
        } else if has_key(data, "contents"@) {
            Some("gemini_ai_studio_json"@)
        } else {
            match as_array(get_either(data, "history"@, "chatHistory"@)) {
                Some(items) => if has_chat_role(items) {
                    Some("continue_dev_json"@)
                } else {
                    None
                },
                None => None,
            }
        },
        Json::Array(v) => if v@.len() > 0 {
            let first = v@[0];
            if first is Object && as_str(get(first, "type"@)) == Some("message"@) {
                Some("slack_json"@)
            } else if first is Object && as_array(get_either(first, "messages"@, "contents"@)) is Some {
                Some("gemini_ai_studio_json"@)
            } else {
                None
            }
        } else {
            None
        },
        _ => None,
    }
}

/// The format a first JSONL line shows: agent-CLI when its type is
/// `conversation`, or `human`/`user`/`assistant` with a `message`.
pub open spec fn first_line_format(first: Json) -> Option<Seq<char>> {
    match as_str(get(first, "type"@)) {
        Some(t) => if first is Object && (t == "conversation"@ || ((t == "human"@ || t == "user"@ || t
            == "assistant"@) && has_key(first, "message"@))) {
            Some("claude_code_jsonl"@)
        } else {
            None
        },
        None => None,
    }
}

/// Lines whose trimmed form starts with `>`.
pub open spec fn quoted_lines(ls: Seq<Seq<char>>) -> nat
    decreases ls.len(),
{
    if ls.len() == 0 {
        0
    } else {
        quoted_lines(ls.drop_last()) + if trim(ls.last()).len() > 0 && trim(ls.last())[0] == '>' {
            1nat
        } else {
            0nat
        }
    }
}

/// The format of a transcript.  `line_values` are the lines of `content`
/// split on `'\n'`, each decoded as JSON (`None` when it is not);
/// `whole` is the trimmed content decoded; `first_line` is the trimmed
/// first line decoded.  Codex, SoulForge and Pi (among the first twenty
/// lines) markers come first, then Aider's header, then the shape of a
/// whole JSON document or, failing that, of its first line; three quoted
/// lines make a transcript; anything else is plain text.
pub open spec fn detected_format(
    content: Seq<char>,
    line_values: Seq<Option<Json>>,
    whole: Option<Json>,
    first_line: Option<Json>,
) -> Seq<char> {
    let t = trim(content);
    let head = if line_values.len() > 20 {
        line_values.take(20)
    } else {
        line_values
    };
    let json_shape = if t.len() > 0 && (t[0] == '{' || t[0] == '[') {
        match whole {
            Some(d) => whole_json_format(d),
            None => match first_line {
                Some(f) => first_line_format(f),
                None => None,
            },
        }
    } else {
        None
    };
    if any_codex_marker(line_values) {
        "codex_jsonl"@
    } else if any_soulforge_marker(line_values) {
        "soulforge_jsonl"@
    } else if any_pi_marker(head) {
        "pi_jsonl"@
    } else if crate::text::contains_sub(t, "Aider Chat History"@) || crate::text::contains_sub(
        t,
        "aider.chat.history"@,
    ) {
        "aider_md"@
    } else if json_shape is Some {
        json_shape->0
    } else if quoted_lines(crate::text::split_on(content, '\n')) >= 3 {
        "transcript"@
    } else {
        "plain_text"@
    }
}

fn has_chat_role_exec(items: &Vec<Json>) -> (r: bool)
    ensures
        r == has_chat_role(items@),
{
    let mut found = false;
    let mut k: usize = 0;
    while k < items.len()
        invariant
            k <= items@.len(),
            found == has_chat_role(items@.take(k as int)),
        decreases items.len() - k,
    {
        proof {
            assert(items@.take(k + 1).drop_last() =~= items@.take(k as int));
            assert(items@.take(k + 1).last() == items@[k as int]);
        }
        let it = &items[k];
        let hit = match it {
            Json::Object(_) => match json_as_str(json_get(it, "role")) {
                Some(r) => str_eq(r, "user") || str_eq(r, "assistant"),
                None => false,
            },
            _ => false,
        };
        found = found || hit;
        k += 1;
    }
    proof {
        assert(items@.take(items@.len() as int) =~= items@);
    }
    found
}

fn whole_json_format_exec(data: &Json) -> (r: Option<&'static str>)
    ensures
        match r {
            Some(f) => whole_json_format(*data) == Some(f@),
            None => whole_json_format(*data) is None,
        },
{
    match data {
        Json::Object(_) => {
            let is_conv = match json_as_str(json_get(data, "type")) {
                Some(t) => str_eq(t, "conversation"),
                None => false,
            };
            if is_conv {
                Some("claude_code_jsonl")
            } else if json_has_key(data, "messages") || json_has_key(data, "chat_messages") {
                Some("claude_ai_json")
            } else if json_has_key(data, "mapping") {
                Some("chatgpt_json")
            } else if json_has_key(data, "contents") {
                Some("gemini_ai_studio_json")
            } else {
                match json_as_array(json_get_either(data, "history", "chatHistory")) {
                    Some(items) => if has_chat_role_exec(items) {
                        Some("continue_dev_json")
                    } else {
                        None
                    },
                    None => None,
                }
            }
        },
        Json::Array(v) => {
            if v.len() == 0 {
                return None;
            }
            let first = &v[0];
            match first {
                Json::Object(_) => {
                    let is_msg = match json_as_str(json_get(first, "type")) {
                        Some(t) => str_eq(t, "message"),
                        None => false,
                    };
                    if is_msg {
                        Some("slack_json")
                    } else if json_as_array(json_get_either(first, "messages", "contents")).is_some() {
                        Some("gemini_ai_studio_json")
                    } else {
                        None
                    }
                },
                _ => None,
            }
        },
        _ => None,
    }
}

fn first_line_format_exec(first: &Json) -> (r: Option<&'static str>)
    ensures
        match r {
            Some(f) => first_line_format(*first) == Some(f@),
            None => first_line_format(*first) is None,
        },
{
    match json_as_str(json_get(first, "type")) {
        Some(t) => {
            let is_obj = match first {
                Json::Object(_) => true,
                _ => false,
            };
            if is_obj && (str_eq(t, "conversation") || ((str_eq(t, "human") || str_eq(t, "user") || str_eq(
                t,
                "assistant",
            )) && json_has_key(first, "message"))) {
                Some("claude_code_jsonl")
            } else {
                None
            }
        },
        None => None,
    }
}

pub(crate) fn count_quoted_lines(content: &str) -> (r: usize)
    ensures
        r == quoted_lines(crate::text::split_on(content@, '\n')),
{
    let cs = chars_of(content);
    let parts = crate::text::split_chars(cs.as_slice(), '\n');
    let ghost ps = crate::text::split_on(content@, '\n');
    let mut n: usize = 0;
    let mut k: usize = 0;
    while k < parts.len()
        invariant
            k <= parts@.len(),
            parts@.len() == ps.len(),
            ps == crate::text::split_on(content@, '\n'),
            forall|i: int| 0 <= i < parts@.len() ==> #[trigger] parts@[i]@ == ps[i],
            n == quoted_lines(ps.take(k as int)),
            n <= k,
        decreases parts.len() - k,
    {
        proof {
            assert(ps.take(k + 1).drop_last() =~= ps.take(k as int));
            assert(ps.take(k + 1).last() == parts@[k as int]@);
        }
        let t = crate::text::trim_chars(parts[k].as_slice());
        if t.len() > 0 && t[0] == '>' {
            n += 1;
        }
        k += 1;
    }
    proof {
        assert(ps.take(ps.len() as int) =~= ps);
    }
    n
}

/// Detect the format of a transcript from its decoded pieces; see
/// [`detected_format`].
pub fn detect_format_decoded(
    content: &str,
    line_values: &[Option<Json>],
    whole: &Option<Json>,
    first_line: &Option<Json>,
) -> (r: String)
    ensures
        r@ == detected_format(content@, line_values@, *whole, *first_line),
{
    let mut codex = false;
    let mut soulforge = false;
    let mut pi = false;
    let ghost head = if line_values@.len() > 20 {
        line_values@.take(20)
    } else {
        line_values@
    };
    let mut k: usize = 0;
    while k < line_values.len()
        invariant
            k <= line_values@.len(),
            head == (if line_values@.len() > 20 { line_values@.take(20) } else { line_values@ }),
            codex == any_codex_marker(line_values@.take(k as int)),
            soulforge == any_soulforge_marker(line_values@.take(k as int)),
            pi == any_pi_marker(if k <= 20 { line_values@.take(k as int) } else { head }),
        decreases line_values.len() - k,
    {
        proof {
            assert(line_values@.take(k + 1).drop_last() =~= line_values@.take(k as int));
            assert(line_values@.take(k + 1).last() == line_values@[k as int]);
            if k == 20 {
                assert(line_values@.take(20) =~= head);
            }
        }
        codex = codex || codex_marker_exec(&line_values[k]);
        soulforge = soulforge || soulforge_marker_exec(&line_values[k]);
        if k < 20 {
            pi = pi || pi_marker_exec(&line_values[k]);
        }
        k += 1;
    }
    proof {
        assert(line_values@.take(line_values@.len() as int) =~= line_values@);
        if line_values@.len() <= 20 {
            assert(head =~= line_values@);
        }
    }
    if codex {
        return owned("codex_jsonl");
    }
    if soulforge {
        return owned("soulforge_jsonl");
    }
    if pi {
        return owned("pi_jsonl");
    }
    let t = trim_str(content);
    if crate::text::str_contains(t.as_str(), "Aider Chat History") || crate::text::str_contains(
        t.as_str(),
        "aider.chat.history",
    ) {
        return owned("aider_md");
    }
    let tc = chars_of(t.as_str());
    if tc.len() > 0 && (tc[0] == '{' || tc[0] == '[') {
        let shape = match whole {
            Some(d) => whole_json_format_exec(d),
            None => match first_line {
                Some(f) => first_line_format_exec(f),
                None => None,
            },
        };
        match shape {
            Some(f) => {
                return owned(f);
            },
            None => {},
        }
    }
    if count_quoted_lines(content) >= 3 {
        owned("transcript")
    } else {
        owned("plain_text")
    }
}

/// The format detected for `content`: [`detected_format`] over its lines
/// split on `'\n'` and each decoded, the whole text trimmed and decoded,
/// and the first line trimmed and decoded.
pub open spec fn detected_format_of(content: Seq<char>) -> Seq<char> {
    let pieces = crate::text::split_on(content, '\n');
    detected_format(
        content,
        crate::json::decoded_all(pieces),
        crate::json::json_decoded(trim(content)),
        crate::json::json_decoded(trim(pieces[0])),
    )
}

/// The lines of `content` split on `'\n'`, each decoded as JSON.
pub fn decoded_split_lines(content: &str) -> (r: Vec<Option<Json>>)
    ensures
        r@ == crate::json::decoded_all(crate::text::split_on(content@, '\n')),
{
    let cs = chars_of(content);
    let pieces = crate::text::split_chars(cs.as_slice(), '\n');
    proof {
        assert(pieces@.map_values(|t: Vec<char>| t@) =~= crate::text::split_on(content@, '\n'));
    }
    crate::json::decode_each(&pieces)
}

/// Detect the format of a transcript.
pub fn detect_format(content: &str) -> (r: String)
    ensures
        r@ == detected_format_of(content@),
{
    let cs = chars_of(content);
    let pieces = crate::text::split_chars(cs.as_slice(), '\n');
    proof {
        crate::text::lemma_split_on_nonempty(content@, '\n');
        assert(pieces@.map_values(|t: Vec<char>| t@) =~= crate::text::split_on(content@, '\n'));
    }
    let split = crate::json::decode_each(&pieces);
    let trimmed = trim_str(content);
    let whole = crate::json::decode_json(trimmed.as_str());
    let first_t = crate::text::trim_chars(pieces[0].as_slice());
    let first_s = string_from_chars(first_t.as_slice());
    let first = crate::json::decode_json(first_s.as_str());
    detect_format_decoded(content, split.as_slice(), &whole, &first)
}

} // verus!
