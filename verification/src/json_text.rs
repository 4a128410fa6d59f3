//! The compact JSON text of a value, as `serde_json` writes a `Value` with `to_string`.
use vstd::prelude::*;
use crate::json::{Json, JsonMember, JsonNumber};
use crate::period::{append_decimal, decimal, signed_decimal};

verus! {

/// The lowercase hexadecimal digit `d`.
pub open spec fn hex_char(d: int) -> char {
    if d < 10 {
        digit_of(d)
    } else if d == 10 { 'a' }
    else if d == 11 { 'b' }
    else if d == 12 { 'c' }
    else if d == 13 { 'd' }
    else if d == 14 { 'e' }
    else { 'f' }
}

/// The decimal digit `d`.
pub open spec fn digit_of(d: int) -> char {
    if d == 0 { '0' }
    else if d == 1 { '1' }
    else if d == 2 { '2' }
    else if d == 3 { '3' }
    else if d == 4 { '4' }
    else if d == 5 { '5' }
    else if d == 6 { '6' }
    else if d == 7 { '7' }
    else if d == 8 { '8' }
    else { '9' }
}

/// How one character is written inside a JSON string: `"` and `\` after a backslash, the
/// control characters below U+0020 as `\b`, `\t`, `\n`, `\f`, `\r` or `\u00XX` (lowercase
/// hexadecimal), every other character as itself.
pub open spec fn escape_char(c: char) -> Seq<char> {
    if c == '"' {
        seq!['\\', '"']
    } else if c == '\\' {
        seq!['\\', '\\']
    } else if c == '\u{08}' {
        seq!['\\', 'b']
    } else if c == '\t' {
        seq!['\\', 't']
    } else if c == '\n' {
        seq!['\\', 'n']
    } else if c == '\u{0C}' {
        seq!['\\', 'f']
    } else if c == '\r' {
        seq!['\\', 'r']
    } else if (c as int) < 0x20 {
        seq!['\\', 'u', '0', '0', hex_char((c as int) / 16), hex_char((c as int) % 16)]
    } else {
        seq![c]
    }
}

/// The characters of a text, each escaped.
pub open spec fn escaped(s: Seq<char>) -> Seq<char>
    decreases s.len(),
{
    if s.len() == 0 {
        Seq::empty()
    } else {
        escaped(s.drop_last()) + escape_char(s.last())
    }
}

/// A text as a JSON string: escaped, between double quotes.
pub open spec fn string_text(s: Seq<char>) -> Seq<char> {
    seq!['"'] + escaped(s) + seq!['"']
}

/// The compact JSON text of a value, or nothing where the value holds a fraction (whose digits
/// a `JsonNumber::Float` does not keep). Arrays and objects list their items and members in
/// order, separated by commas, with no spaces.
pub open spec fn json_text(v: Json) -> Option<Seq<char>>
    decreases v,
{
    match v {
        Json::Null => Some("null"@),
        Json::Bool(b) => Some(if b { "true"@ } else { "false"@ }),
        Json::Number(JsonNumber::PosInt(n)) => Some(decimal(n as nat)),
        Json::Number(JsonNumber::NegInt(n)) => Some(signed_decimal(n as int)),
        Json::Number(JsonNumber::Float) => None,
        Json::Str(s) => Some(string_text(s@)),
        Json::Array(items) => match items_text(items@) {
            Some(t) => Some(seq!['['] + t + seq![']']),
            None => None,
        },
        Json::Object(members) => match members_text(members@) {
            Some(t) => Some(seq!['{'] + t + seq!['}']),
            None => None,
        },
    }
}

/// The texts of array items, separated by commas.
pub open spec fn items_text(items: Seq<Json>) -> Option<Seq<char>>
    decreases items,
{
    if items.len() == 0 {
        Some(Seq::empty())
    } else {
        match (items_text(items.drop_last()), json_text(items.last())) {
            (Some(a), Some(b)) => Some(if items.len() == 1 { b } else { a + seq![','] + b }),
            _ => None,
        }
    }
}

/// The texts of object members (`"key":value`), separated by commas.
pub open spec fn members_text(members: Seq<JsonMember>) -> Option<Seq<char>>
    decreases members,
{
    if members.len() == 0 {
        Some(Seq::empty())
    } else {
        match (members_text(members.drop_last()), json_text(members.last().value)) {
            (Some(a), Some(b)) => {
                let m = string_text(members.last().key@) + seq![':'] + b;
                Some(if members.len() == 1 { m } else { a + seq![','] + m })
            },
            _ => None,
        }
    }
}

fn hex_str(d: u32) -> (r: &'static str)
    requires
        d < 16,
    ensures
        r@ == seq![hex_char(d as int)],
{
    proof {
        reveal_strlit("0");
        reveal_strlit("1");
        reveal_strlit("2");
        reveal_strlit("3");
        reveal_strlit("4");
        reveal_strlit("5");
        reveal_strlit("6");
        reveal_strlit("7");
        reveal_strlit("8");
        reveal_strlit("9");
        reveal_strlit("a");
        reveal_strlit("b");
        reveal_strlit("c");
        reveal_strlit("d");
        reveal_strlit("e");
        reveal_strlit("f");
    }
    if d == 0 { "0" }
    else if d == 1 { "1" }
    else if d == 2 { "2" }
    else if d == 3 { "3" }
    else if d == 4 { "4" }
    else if d == 5 { "5" }
    else if d == 6 { "6" }
    else if d == 7 { "7" }
    else if d == 8 { "8" }
    else if d == 9 { "9" }
    else if d == 10 { "a" }
    else if d == 11 { "b" }
    else if d == 12 { "c" }
    else if d == 13 { "d" }
    else if d == 14 { "e" }
    else { "f" }
}

/// Appends a text as a JSON string.
fn append_string_text(out: &mut String, s: &str)
    ensures
        final(out)@ == old(out)@ + string_text(s@),
{
    proof {
        reveal_strlit("\"");
    }
    out.append("\"");
    let ghost start = out@;
    let n = s.unicode_len();
    assert(s@.take(0) =~= Seq::<char>::empty());
    for i in 0..n
        invariant
            n == s@.len(),
            out@ == start + escaped(s@.take(i as int)),
    {
        let c = s.get_char(i);
        proof {
            assert(s@.take(i + 1).drop_last() =~= s@.take(i as int));
            assert(s@.take(i + 1).last() == c);
            reveal_strlit("\\\"");
            reveal_strlit("\\\\");
            reveal_strlit("\\b");
            reveal_strlit("\\t");
            reveal_strlit("\\n");
            reveal_strlit("\\f");
            reveal_strlit("\\r");
            reveal_strlit("\\u00");
        }
        let ghost before = out@;
        if c == '"' {
            out.append("\\\"");
        } else if c == '\\' {
            out.append("\\\\");
        } else if c == '\u{08}' {
            out.append("\\b");
        } else if c == '\t' {
            out.append("\\t");
        } else if c == '\n' {
            out.append("\\n");
        } else if c == '\u{0C}' {
            out.append("\\f");
        } else if c == '\r' {
            out.append("\\r");
        } else if (c as u32) < 0x20 {
            out.append("\\u00");
            out.append(hex_str((c as u32) / 16));
            out.append(hex_str((c as u32) % 16));
        } else {
            out.append(s.substring_char(i, i + 1));
            assert(s@.subrange(i as int, i + 1) =~= seq![c]);
        }
        assert(out@ =~= before + escape_char(c));
    }
    assert(s@.take(n as int) =~= s@);
    out.append("\"");
    assert(out@ =~= old(out)@ + string_text(s@));
}

/// Appends the compact JSON text of `v`; returns false, having appended something unspecified,
/// where `v` holds a fraction.
fn append_json_text(out: &mut String, v: &Json) -> (ok: bool)
    ensures
        ok == json_text(*v) is Some,
        ok ==> final(out)@ == old(out)@ + json_text(*v)->0,
    decreases v,
{
    proof {
        reveal_strlit("null");
        reveal_strlit("true");
        reveal_strlit("false");
        reveal_strlit("-");
        reveal_strlit("[");
        reveal_strlit("]");
        reveal_strlit("{");
        reveal_strlit("}");
        reveal_strlit(",");
        reveal_strlit(":");
    }
    match v {
        Json::Null => {
            out.append("null");
            true
        },
        Json::Bool(b) => {
            if *b {
                out.append("true");
            } else {
                out.append("false");
            }
            true
        },
        Json::Number(JsonNumber::PosInt(n)) => {
            append_decimal(out, *n);
            true
        },
        Json::Number(JsonNumber::NegInt(n)) => {
            if *n < 0 {
                out.append("-");
                let magnitude: u64 = if *n == i64::MIN { 9223372036854775808u64 } else { (-*n) as u64 };
                assert(magnitude as int == -(*n as int));
                append_decimal(out, magnitude);
            } else {
                append_decimal(out, *n as u64);
            }
            assert(final(out)@ =~= old(out)@ + signed_decimal(*n as int));
            true
        },
        Json::Number(JsonNumber::Float) => false,
        Json::Str(s) => {
            append_string_text(out, s.as_str());
            true
        },
        Json::Array(items) => {
            out.append("[");
            let ghost start = out@;
            let n = items.len();
            assert(items@.take(0) =~= Seq::<Json>::empty());
            for i in 0..n
                invariant
                    *v == Json::Array(*items),
                    n == items@.len(),
                    items_text(items@.take(i as int)) is Some,
                    out@ == start + items_text(items@.take(i as int))->0,
            {
                proof {
                    assert(decreases_to!(*v => (*v)->Array_0));
                    assert(decreases_to!(*items => items@));
                    assert(decreases_to!(items@ => items@[i as int]));
                    assert(items@.take(i + 1).drop_last() =~= items@.take(i as int));
                    assert(items@.take(i + 1).last() == items@[i as int]);
                }
                proof {
                    reveal_strlit(",");
                    reveal_strlit(":");
                }
                let ghost before = out@;
                if i > 0 {
                    out.append(",");
                }
                let ok = append_json_text(out, &items[i]);
                if !ok {
                    proof {
                        lemma_items_text_prefix_none(items@, i + 1);
                    }
                    return false;
                }
                proof {
                    let t = items@.take(i + 1);
                    let a = items_text(items@.take(i as int))->0;
                    let b = json_text(items@[i as int])->0;
                    assert(t.len() == i + 1);
                    assert(items_text(t) == Some(if i == 0 { b } else { a + seq![','] + b }));
                    if i == 0 {
                        assert(a =~= Seq::<char>::empty());
                    }
                }
                assert(out@ =~= start + items_text(items@.take(i + 1))->0);
            }
            assert(items@.take(n as int) =~= items@);
            out.append("]");
            assert(out@ =~= old(out)@ + json_text(*v)->0);
            true
        },
        Json::Object(members) => {
            out.append("{");
            let ghost start = out@;
            let n = members.len();
            assert(members@.take(0) =~= Seq::<JsonMember>::empty());
            for i in 0..n
                invariant
                    *v == Json::Object(*members),
                    n == members@.len(),
                    members_text(members@.take(i as int)) is Some,
                    out@ == start + members_text(members@.take(i as int))->0,
            {
                proof {
                    assert(decreases_to!(*v => (*v)->Object_0));
                    assert(decreases_to!(*members => members@));
                    assert(decreases_to!(members@ => members@[i as int]));
                    assert(decreases_to!(members@[i as int] => members@[i as int].value));
                    assert(members@.take(i + 1).drop_last() =~= members@.take(i as int));
                    assert(members@.take(i + 1).last() == members@[i as int]);
                }
                proof {
                    reveal_strlit(",");
                    reveal_strlit(":");
                }
                let ghost before = out@;
                if i > 0 {
                    out.append(",");
                }
                append_string_text(out, members[i].key.as_str());
                out.append(":");
                let ok = append_json_text(out, &members[i].value);
                if !ok {
                    proof {
                        lemma_members_text_prefix_none(members@, i + 1);
                    }
                    return false;
                }
                proof {
                    let t = members@.take(i + 1);
                    let a = members_text(members@.take(i as int))->0;
                    let m = string_text(members@[i as int].key@) + seq![':'] + json_text(members@[i as int].value)->0;
                    assert(t.len() == i + 1);
                    assert(members_text(t) == Some(if i == 0 { m } else { a + seq![','] + m }));
                    if i == 0 {
                        assert(a =~= Seq::<char>::empty());
                    }
                }
                assert(out@ =~= start + members_text(members@.take(i + 1))->0);
            }
            assert(members@.take(n as int) =~= members@);
            out.append("}");
            assert(out@ =~= old(out)@ + json_text(*v)->0);
            true
        },
    }
}

/// Where a prefix of the items has no text, neither have the items.
proof fn lemma_items_text_prefix_none(items: Seq<Json>, k: int)
    requires
        0 <= k <= items.len(),
        items_text(items.take(k)) is None,
    ensures
        items_text(items) is None,
    decreases items.len(),
{
    if k < items.len() {
        assert(items.drop_last().take(k) =~= items.take(k));
        lemma_items_text_prefix_none(items.drop_last(), k);
    } else {
        assert(items.take(k) =~= items);
    }
}

/// Where a prefix of the members has no text, neither have the members.
proof fn lemma_members_text_prefix_none(members: Seq<JsonMember>, k: int)
    requires
        0 <= k <= members.len(),
        members_text(members.take(k)) is None,
    ensures
        members_text(members) is None,
    decreases members.len(),
{
    if k < members.len() {
        assert(members.drop_last().take(k) =~= members.take(k));
        lemma_members_text_prefix_none(members.drop_last(), k);
    } else {
        assert(members.take(k) =~= members);
    }
}

/// The compact JSON text of a value, or `None` where it holds a fraction.
pub fn to_json_text(v: &Json) -> (r: Option<String>)
    ensures
        match r {
            Some(s) => json_text(*v) == Some(s@),
            None => json_text(*v) is None,
        },
{
    let mut out = String::new();
    if append_json_text(&mut out, v) {
        assert(out@ =~= json_text(*v)->0);
        Some(out)
    } else {
        None
    }
}

} // verus!
