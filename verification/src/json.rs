//! A JSON value as the transcript parsers read it, and the lookups they
//! make: members of objects, strings, arrays.
use vstd::prelude::*;

verus! {

broadcast use vstd::string::group_string_axioms;

/// A JSON value.  Numbers keep their textual form; object members keep
/// their order.
pub enum Json {
    Null,
    Bool(bool),
    Number(String),
    Str(String),
    Array(Vec<Json>),
    Object(Vec<(String, Json)>),
}

/// Index of the first member named `key`, or -1.
pub open spec fn member_index(members: Seq<(String, Json)>, key: Seq<char>) -> int
    decreases members.len(),
{
    if members.len() == 0 {
        -1
    } else {
        let p = member_index(members.drop_last(), key);
        if p >= 0 {
            p
        } else if members.last().0@ == key {
            members.len() - 1
        } else {
            -1
        }
    }
}

/// The member `key` of an object (`None` for other values or a missing
/// member).
pub open spec fn get(j: Json, key: Seq<char>) -> Option<Json> {
    match j {
        Json::Object(ms) => {
            let i = member_index(ms@, key);
            if i >= 0 {
                Some(ms@[i].1)
            } else {
                None
            }
        },
        _ => None,
    }
}

/// The first of two members that is present.
pub open spec fn get_either(j: Json, k1: Seq<char>, k2: Seq<char>) -> Option<Json> {
    match get(j, k1) {
        Some(v) => Some(v),
        None => get(j, k2),
    }
}

/// The string a value holds.
pub open spec fn as_str(j: Option<Json>) -> Option<Seq<char>> {
    match j {
        Some(Json::Str(s)) => Some(s@),
        _ => None,
    }
}

/// The elements of an array.
pub open spec fn as_array(j: Option<Json>) -> Option<Seq<Json>> {
    match j {
        Some(Json::Array(v)) => Some(v@),
        _ => None,
    }
}

/// The value, if it is an object.
pub open spec fn as_object(j: Option<Json>) -> Option<Json> {
    match j {
        Some(Json::Object(ms)) => Some(Json::Object(ms)),
        _ => None,
    }
}

pub open spec fn is_object(j: Json) -> bool {
    j is Object
}

/// An object has a member `key`.
pub open spec fn has_key(j: Json, key: Seq<char>) -> bool {
    get(j, key) is Some
}

pub proof fn lemma_member_index_bounds(members: Seq<(String, Json)>, key: Seq<char>)
    ensures
        -1 <= member_index(members, key) < members.len(),
        member_index(members, key) >= 0 ==> members[member_index(members, key)].0@ == key,
    decreases members.len(),
{
    if members.len() > 0 {
        lemma_member_index_bounds(members.drop_last(), key);
    }
}

pub(crate) fn member_lookup(ms: &Vec<(String, Json)>, key: &str) -> (r: Option<usize>)
    ensures
        match r {
            Some(i) => i < ms@.len() && member_index(ms@, key@) == i,
            None => member_index(ms@, key@) == -1,
        },
{
    let mut k: usize = 0;
    while k < ms.len()
        invariant
            k <= ms@.len(),
            member_index(ms@.take(k as int), key@) == -1,
        decreases ms.len() - k,
    {
        proof {
            assert(ms@.take(k + 1).drop_last() =~= ms@.take(k as int));
        }
        if crate::text::str_eq(ms[k].0.as_str(), key) {
            proof {
                lemma_member_index_prefix(ms@, key@, k as int);
            }
            return Some(k);
        }
        k += 1;
    }
    proof {
        assert(ms@.take(ms@.len() as int) =~= ms@);
    }
    None
}

/// The member `key` of a value.
pub fn json_get<'a>(j: &'a Json, key: &str) -> (r: Option<&'a Json>)
    ensures
        match r {
            Some(v) => get(*j, key@) == Some(*v),
            None => get(*j, key@) is None,
        },
{
    match j {
        Json::Object(ms) => match member_lookup(ms, key) {
            Some(i) => Some(&ms[i].1),
            None => None,
        },
        _ => None,
    }
}

proof fn lemma_member_index_prefix(members: Seq<(String, Json)>, key: Seq<char>, k: int)
    requires
        0 <= k < members.len(),
        member_index(members.take(k), key) == -1,
        members[k].0@ == key,
    ensures
        member_index(members, key) == k,
    decreases members.len(),
{
    if k == members.len() - 1 {
        assert(members.drop_last() =~= members.take(k));
    } else {
        assert(members.drop_last().take(k) =~= members.take(k));
        lemma_member_index_prefix(members.drop_last(), key, k);
    }
}

/// The first of two members that is present.
pub fn json_get_either<'a>(j: &'a Json, k1: &str, k2: &str) -> (r: Option<&'a Json>)
    ensures
        match r {
            Some(v) => get_either(*j, k1@, k2@) == Some(*v),
            None => get_either(*j, k1@, k2@) is None,
        },
{
    match json_get(j, k1) {
        Some(v) => Some(v),
        None => json_get(j, k2),
    }
}

/// The string held by an optional value.
pub fn json_as_str<'a>(j: Option<&'a Json>) -> (r: Option<&'a str>)
    ensures
        match r {
            Some(s) => as_str(opt_deref(j)) == Some(s@),
            None => as_str(opt_deref(j)) is None,
        },
{
    match j {
        Some(Json::Str(s)) => Some(s.as_str()),
        _ => None,
    }
}

/// The elements of an optional array value.
pub fn json_as_array<'a>(j: Option<&'a Json>) -> (r: Option<&'a Vec<Json>>)
    ensures
        match r {
            Some(v) => as_array(opt_deref(j)) == Some(v@),
            None => as_array(opt_deref(j)) is None,
        },
{
    match j {
        Some(Json::Array(v)) => Some(v),
        _ => None,
    }
}

/// An optional value, if it is an object.
pub fn json_as_object<'a>(j: Option<&'a Json>) -> (r: Option<&'a Json>)
    ensures
        match r {
            Some(v) => as_object(opt_deref(j)) == Some(*v) && v is Object,
            None => as_object(opt_deref(j)) is None,
        },
{
    match j {
        Some(v) => match v {
            Json::Object(_) => Some(v),
            _ => None,
        },
        None => None,
    }
}

/// Whether an object has a member `key`.
pub fn json_has_key(j: &Json, key: &str) -> (r: bool)
    ensures
        r == has_key(*j, key@),
{
    json_get(j, key).is_some()
}

pub open spec fn opt_deref(j: Option<&Json>) -> Option<Json> {
    match j {
        Some(v) => Some(*v),
        None => None,
    }
}

// ---------------------------------------------------------------------------
// Compact text
// ---------------------------------------------------------------------------

/// A lowercase hexadecimal digit.
pub open spec fn hex_digit(d: u32) -> char {
    if d < 10 {
        (('0' as u32) + d) as char
    } else {
        (('a' as u32) + d - 10) as char
    }
}

/// A character as it stands inside a JSON string: quote and backslash
/// escaped, control characters as their short escape or `\u00XX`.
pub open spec fn escape_char(c: char) -> Seq<char> {
    if c == '"' {
        seq!['\\', '"']
    } else if c == '\\' {
        seq!['\\', '\\']
    } else if c == '\n' {
        seq!['\\', 'n']
    } else if c == '\r' {
        seq!['\\', 'r']
    } else if c == '\t' {
        seq!['\\', 't']
    } else if c == '\x08' {
        seq!['\\', 'b']
    } else if c == '\x0c' {
        seq!['\\', 'f']
    } else if (c as u32) < 0x20 {
        seq!['\\', 'u', '0', '0', hex_digit((c as u32) / 16), hex_digit((c as u32) % 16)]
    } else {
        seq![c]
    }
}

pub open spec fn escape_str(s: Seq<char>) -> Seq<char>
    decreases s.len(),
{
    if s.len() == 0 {
        Seq::empty()
    } else {
        escape_str(s.drop_last()) + escape_char(s.last())
    }
}

/// A string literal.
pub open spec fn quoted(s: Seq<char>) -> Seq<char> {
    seq!['"'] + escape_str(s) + seq!['"']
}

/// The compact JSON text of a value: no spaces, members in order.
pub open spec fn json_text(j: Json) -> Seq<char>
    decreases j,
{
    match j {
        Json::Null => "null"@,
        Json::Bool(b) => if b {
            "true"@
        } else {
            "false"@
        },
        Json::Number(n) => n@,
        Json::Str(s) => quoted(s@),
        Json::Array(v) => seq!['['] + items_text(v@) + seq![']'],
        Json::Object(ms) => seq!['{'] + members_text(ms@) + seq!['}'],
    }
}

/// Values separated by commas.
pub open spec fn items_text(items: Seq<Json>) -> Seq<char>
    decreases items,
{
    if items.len() == 0 {
        Seq::empty()
    } else if items.len() == 1 {
        json_text(items[0])
    } else {
        items_text(items.drop_last()) + seq![','] + json_text(items.last())
    }
}

/// Members `"key":value` separated by commas.
pub open spec fn members_text(ms: Seq<(String, Json)>) -> Seq<char>
    decreases ms,
{
    if ms.len() == 0 {
        Seq::empty()
    } else if ms.len() == 1 {
        quoted(ms[0].0@) + seq![':'] + json_text(ms[0].1)
    } else {
        members_text(ms.drop_last()) + seq![','] + quoted(ms.last().0@) + seq![':'] + json_text(ms.last().1)
    }
}

pub(crate) fn push_escaped(out: &mut String, s: &str)
    ensures
        final(out)@ == old(out)@ + escape_str(s@),
{
    let cs = crate::text::chars_of(s);
    let ghost start = out@;
    let mut k: usize = 0;
    proof {
        assert(s@.take(0) =~= Seq::<char>::empty());
        assert(start + escape_str(Seq::<char>::empty()) =~= start);
    }
    while k < cs.len()
        invariant
            k <= cs@.len(),
            cs@ == s@,
            out@ == start + escape_str(s@.take(k as int)),
        decreases cs.len() - k,
    {
        let c = cs[k];
        proof {
            assert(s@.take(k + 1).drop_last() =~= s@.take(k as int));
            assert(s@.take(k + 1).last() == c);
        }
        let ghost before = out@;
        if c == '"' {
            crate::text::push_char(out, '\\');
            crate::text::push_char(out, '"');
        } else if c == '\\' {
            crate::text::push_char(out, '\\');
            crate::text::push_char(out, '\\');
        } else if c == '\n' {
            crate::text::push_char(out, '\\');
            crate::text::push_char(out, 'n');
        } else if c == '\r' {
            crate::text::push_char(out, '\\');
            crate::text::push_char(out, 'r');
        } else if c == '\t' {
            crate::text::push_char(out, '\\');
            crate::text::push_char(out, 't');
        } else if c == '\x08' {
            crate::text::push_char(out, '\\');
            crate::text::push_char(out, 'b');
        } else if c == '\x0c' {
            crate::text::push_char(out, '\\');
            crate::text::push_char(out, 'f');
        } else if (c as u32) < 0x20 {
            let v = c as u32;
            let hi = v / 16;
            let lo = v % 16;
            crate::text::push_char(out, '\\');
            crate::text::push_char(out, 'u');
            crate::text::push_char(out, '0');
            crate::text::push_char(out, '0');
            let h = if hi < 10 {
                crate::text::char_from_ascii(48 + hi)
            } else {
                crate::text::char_from_ascii(87 + hi)
            };
            let l = if lo < 10 {
                crate::text::char_from_ascii(48 + lo)
            } else {
                crate::text::char_from_ascii(87 + lo)
            };
            crate::text::push_char(out, h);
            crate::text::push_char(out, l);
        } else {
            crate::text::push_char(out, c);
        }
        proof {
            assert(out@ =~= before + escape_char(c));
            assert(start + escape_str(s@.take(k + 1)) =~= start + escape_str(s@.take(k as int)) + escape_char(c));
        }
        k += 1;
    }
    proof {
        assert(s@.take(s@.len() as int) =~= s@);
    }
}

/// Append the compact JSON text of a value.
pub fn write_json(j: &Json, out: &mut String)
    ensures
        final(out)@ == old(out)@ + json_text(*j),
    decreases j,
{
    let ghost start = out@;
    match j {
        Json::Null => {
            crate::text::push_str(out, "null");
        },
        Json::Bool(b) => {
            if *b {
                crate::text::push_str(out, "true");
            } else {
                crate::text::push_str(out, "false");
            }
        },
        Json::Number(n) => {
            crate::text::push_str(out, n.as_str());
        },
        Json::Str(s) => {
            crate::text::push_char(out, '"');
            push_escaped(out, s.as_str());
            crate::text::push_char(out, '"');
            proof {
                assert(out@ =~= start + quoted(s@));
            }
        },
        Json::Array(v) => {
            crate::text::push_char(out, '[');
            let mut k: usize = 0;
            proof {
                assert(v@.take(0) =~= Seq::<Json>::empty());
                assert(out@ =~= start + seq!['['] + items_text(v@.take(0)));
            }
            while k < v.len()
                invariant
                    k <= v@.len(),
                    *j == Json::Array(*v),
                    out@ == start + seq!['['] + items_text(v@.take(k as int)),
                decreases v.len() - k,
            {
                let ghost before = out@;
                if k > 0 {
                    crate::text::push_char(out, ',');
                }
                proof {
                    assert(decreases_to!(*j => (*j)->Array_0));
                    assert(decreases_to!(*v => v@));
                    assert(decreases_to!(v@ => v@[k as int]));
                    assert(decreases_to!(*j => v@[k as int]));
                }
                write_json(&v[k], out);
                proof {
                    assert(v@.take(k + 1).drop_last() =~= v@.take(k as int));
                    assert(v@.take(k + 1).last() == v@[k as int]);
                    if k == 0 {
                        assert(v@.take(1)[0] == v@[0]);
                        assert(out@ =~= start + seq!['['] + items_text(v@.take(k + 1)));
                    } else {
                        assert(out@ =~= start + seq!['['] + items_text(v@.take(k + 1)));
                    }
                }
                k += 1;
            }
            crate::text::push_char(out, ']');
            proof {
                assert(v@.take(v@.len() as int) =~= v@);
                assert(out@ =~= start + json_text(*j));
            }
        },
        Json::Object(ms) => {
            crate::text::push_char(out, '{');
            let mut k: usize = 0;
            proof {
                assert(ms@.take(0) =~= Seq::<(String, Json)>::empty());
                assert(out@ =~= start + seq!['{'] + members_text(ms@.take(0)));
            }
            while k < ms.len()
                invariant
                    k <= ms@.len(),
                    *j == Json::Object(*ms),
                    out@ == start + seq!['{'] + members_text(ms@.take(k as int)),
                decreases ms.len() - k,
            {
                let ghost before = out@;
                if k > 0 {
                    crate::text::push_char(out, ',');
                }
                crate::text::push_char(out, '"');
                push_escaped(out, ms[k].0.as_str());
                crate::text::push_char(out, '"');
                crate::text::push_char(out, ':');
                proof {
                    assert(decreases_to!(*j => (*j)->Object_0));
                    assert(decreases_to!(*ms => ms@));
                    assert(decreases_to!(ms@ => ms@[k as int]));
                    assert(decreases_to!(ms@[k as int] => ms@[k as int].1));
                    assert(decreases_to!(*j => ms@[k as int].1));
                }
                write_json(&ms[k].1, out);
                proof {
                    assert(ms@.take(k + 1).drop_last() =~= ms@.take(k as int));
                    assert(ms@.take(k + 1).last() == ms@[k as int]);
                    if k == 0 {
                        assert(ms@.take(1)[0] == ms@[0]);
                    }
                    assert(out@ =~= start + seq!['{'] + members_text(ms@.take(k + 1)));
                }
                k += 1;
            }
            crate::text::push_char(out, '}');
            proof {
                assert(ms@.take(ms@.len() as int) =~= ms@);
                assert(out@ =~= start + json_text(*j));
            }
        },
    }
}

/// The compact JSON text of a value.
pub fn to_json_text(j: &Json) -> (r: String)
    ensures
        r@ == json_text(*j),
{
    let mut out = String::new();
    write_json(j, &mut out);
    out
}

// ---------------------------------------------------------------------------
// Decoding
// ---------------------------------------------------------------------------

#[verifier::external_type_specification]
#[verifier::external_body]
pub struct ExJsonValue(serde_json::Value);

/// The value `serde_json` decodes `text` into (`serde_json::from_str` into a
/// `serde_json::Value`), in the library's form, or `None` when the text is
/// not one JSON value.  The JSON grammar is not restated here.
pub uninterp spec fn json_decoded(text: Seq<char>) -> Option<Json>;

/// A `serde_json::Value` in the library's form, one for one: numbers as
/// serde_json prints them, object members in the order the map yields them.
#[verifier::external_body]
fn json_of_value(v: &serde_json::Value) -> Json {
    match v {
        serde_json::Value::Null => Json::Null,
        serde_json::Value::Bool(b) => Json::Bool(*b),
        serde_json::Value::Number(n) => Json::Number(n.to_string()),
        serde_json::Value::String(s) => Json::Str(s.clone()),
        serde_json::Value::Array(a) => Json::Array(a.iter().map(json_of_value).collect()),
        serde_json::Value::Object(m) => Json::Object(m.iter().map(|(k, x)| (k.clone(), json_of_value(x))).collect()),
    }
}

/// `serde_json::from_str::<serde_json::Value>(text)`, converted to the
/// library's form; `None` when serde_json reports an error.  The result is
/// named by [`json_decoded`].
#[verifier::external_body]
pub fn decode_json(text: &str) -> (r: Option<Json>)
    ensures
        r == json_decoded(text@),
{
    match serde_json::from_str::<serde_json::Value>(text) {
        Ok(v) => Some(json_of_value(&v)),
        Err(_) => None,
    }
}

/// Each text decoded.
pub open spec fn decoded_all(ts: Seq<Seq<char>>) -> Seq<Option<Json>> {
    ts.map_values(|t: Seq<char>| json_decoded(t))
}

/// Decode each piece of text.
pub fn decode_each(ts: &Vec<Vec<char>>) -> (r: Vec<Option<Json>>)
    ensures
        r@ == decoded_all(ts@.map_values(|t: Vec<char>| t@)),
{
    let ghost tv = ts@.map_values(|t: Vec<char>| t@);
    let mut r: Vec<Option<Json>> = Vec::new();
    let mut k: usize = 0;
    while k < ts.len()
        invariant
            k <= ts@.len(),
            tv == ts@.map_values(|t: Vec<char>| t@),
            r@ == decoded_all(tv.take(k as int)),
        decreases ts.len() - k,
    {
        let s = crate::text::string_from_chars(ts[k].as_slice());
        let d = decode_json(s.as_str());
        r.push(d);
        proof {
            assert(decoded_all(tv.take(k + 1)) =~= decoded_all(tv.take(k as int)).push(json_decoded(tv[k as int])));
        }
        k += 1;
    }
    proof {
        assert(tv.take(tv.len() as int) =~= tv);
    }
    r
}

/// Decode each string.
pub fn decode_strings(ts: &Vec<String>) -> (r: Vec<Option<Json>>)
    ensures
        r@ == decoded_all(crate::text::str_views(ts@)),
{
    let ghost tv = crate::text::str_views(ts@);
    let mut r: Vec<Option<Json>> = Vec::new();
    let mut k: usize = 0;
    while k < ts.len()
        invariant
            k <= ts@.len(),
            tv == crate::text::str_views(ts@),
            r@ == decoded_all(tv.take(k as int)),
        decreases ts.len() - k,
    {
        let d = decode_json(ts[k].as_str());
        r.push(d);
        proof {
            assert(decoded_all(tv.take(k + 1)) =~= decoded_all(tv.take(k as int)).push(json_decoded(tv[k as int])));
        }
        k += 1;
    }
    proof {
        assert(tv.take(tv.len() as int) =~= tv);
    }
    r
}

} // verus!
