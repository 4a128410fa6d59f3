//! Merging token usage: one usage record added into another, and usage records merged model by
//! model. Per-model usage is held as object members, one per model, in the order in which the
//! models first appear, so that the merged usage has one order that the contracts state.
use vstd::prelude::*;
use crate::json::{Json, JsonMember, JsonNumber, member_spec};
use crate::text::str_equal;
use crate::models::{GroupedUsageData, GroupingMode, PeriodUsage, Provider};
use crate::text::seq_less;
use crate::usage::{
    FileUsage, UsageEntry, conversation_usage_entries, dates_in, days_of, group_by_period, period_keys, periods_match,
    usage_pairs, usages_in,
};

verus! {

/// A JSON value as a mathematical value: texts as character sequences, object members as
/// (name, value) pairs in document order.
pub enum JsonView {
    Null,
    Bool(bool),
    Number(JsonNumber),
    Str(Seq<char>),
    Array(Seq<JsonView>),
    Object(Seq<(Seq<char>, JsonView)>),
}

/// The mathematical value of a JSON value.
pub open spec fn json_view(j: Json) -> JsonView
    decreases j,
{
    match j {
        Json::Null => JsonView::Null,
        Json::Bool(b) => JsonView::Bool(b),
        Json::Number(n) => JsonView::Number(n),
        Json::Str(s) => JsonView::Str(s@),
        Json::Array(items) => JsonView::Array(items_view(items@)),
        Json::Object(members) => JsonView::Object(members_view(members@)),
    }
}

/// The mathematical values of array items.
pub open spec fn items_view(items: Seq<Json>) -> Seq<JsonView>
    decreases items,
{
    if items.len() == 0 {
        Seq::empty()
    } else {
        seq![json_view(items[0])] + items_view(items.drop_first())
    }
}

/// The mathematical values of object members.
pub open spec fn members_view(members: Seq<JsonMember>) -> Seq<(Seq<char>, JsonView)>
    decreases members,
{
    if members.len() == 0 {
        Seq::empty()
    } else {
        seq![(members[0].key@, json_view(members[0].value))] + members_view(members.drop_first())
    }
}

/// The value of the first member named `key`.
pub open spec fn view_get(members: Seq<(Seq<char>, JsonView)>, key: Seq<char>) -> Option<JsonView>
    decreases members.len(),
{
    if members.len() == 0 {
        None
    } else if members[0].0 == key {
        Some(members[0].1)
    } else {
        view_get(members.drop_first(), key)
    }
}

/// `get` on a JSON object agrees with `view_get` on its mathematical value.
proof fn lemma_get_view(members: Seq<JsonMember>, key: Seq<char>)
    ensures
        view_get(members_view(members), key) == (match member_spec(members, key) {
            Some(v) => Some(json_view(v)),
            None => None,
        }),
    decreases members.len(),
{
    if members.len() > 0 {
        lemma_get_view(members.drop_first(), key);
        let mv = members_view(members);
        assert(mv.drop_first() =~= members_view(members.drop_first()));
    }
}

/// The integer that a value holds when it is one that fits in an `i64`, else 0.
pub open spec fn int_of(v: Option<JsonView>) -> int {
    match v {
        Some(JsonView::Number(JsonNumber::PosInt(n))) => if n <= i64::MAX { n as int } else { 0 },
        Some(JsonView::Number(JsonNumber::NegInt(n))) => n as int,
        _ => 0,
    }
}

/// Whether a value is an integer that fits in an `i64`.
pub open spec fn is_i64(v: JsonView) -> bool {
    match v {
        JsonView::Number(JsonNumber::PosInt(n)) => n <= i64::MAX,
        JsonView::Number(JsonNumber::NegInt(_)) => true,
        _ => false,
    }
}

/// `n` held within the range of `i64`.
pub open spec fn clamp_i64(n: int) -> i64 {
    if n > i64::MAX {
        i64::MAX
    } else if n < i64::MIN {
        i64::MIN
    } else {
        n as i64
    }
}

/// The JSON number of an `i64`.
pub open spec fn int_view(n: i64) -> JsonView {
    if n >= 0 {
        JsonView::Number(JsonNumber::PosInt(n as u64))
    } else {
        JsonView::Number(JsonNumber::NegInt(n))
    }
}

/// Adds `n` to the first member named `key` (read as 0 when it is no `i64`), or appends the
/// member `key` with value `n` when there is none.
pub open spec fn add_int(members: Seq<(Seq<char>, JsonView)>, key: Seq<char>, n: i64) -> Seq<(Seq<char>, JsonView)>
    decreases members.len(),
{
    if members.len() == 0 {
        seq![(key, int_view(n))]
    } else if members[0].0 == key {
        seq![(key, int_view(clamp_i64(int_of(Some(members[0].1)) + n)))] + members.drop_first()
    } else {
        seq![members[0]] + add_int(members.drop_first(), key, n)
    }
}

/// Adds the `i64` member `field` of `new`, if it has one, to `members`.
pub open spec fn add_field(members: Seq<(Seq<char>, JsonView)>, new: Seq<(Seq<char>, JsonView)>, field: Seq<char>) -> Seq<(Seq<char>, JsonView)> {
    match view_get(new, field) {
        Some(v) => if is_i64(v) { add_int(members, field, clamp_i64(int_of(Some(v)))) } else { members },
        None => members,
    }
}

/// Adds the token fields of `new` to `members`, in this order: `input_tokens`,
/// `cache_creation_input_tokens`, `cache_read_input_tokens`, `output_tokens`, `thoughts_tokens`,
/// `tool_tokens`, `total_tokens`.
pub open spec fn add_token_fields(members: Seq<(Seq<char>, JsonView)>, new: Seq<(Seq<char>, JsonView)>) -> Seq<(Seq<char>, JsonView)> {
    let a = add_field(members, new, "input_tokens"@);
    let b = add_field(a, new, "cache_creation_input_tokens"@);
    let c = add_field(b, new, "cache_read_input_tokens"@);
    let d = add_field(c, new, "output_tokens"@);
    let e = add_field(d, new, "thoughts_tokens"@);
    let f = add_field(e, new, "tool_tokens"@);
    add_field(f, new, "total_tokens"@)
}

/// Adds every `i64` member of `new`, in order, to `members`; other members of `new` are skipped.
pub open spec fn add_ints(members: Seq<(Seq<char>, JsonView)>, new: Seq<(Seq<char>, JsonView)>) -> Seq<(Seq<char>, JsonView)>
    decreases new.len(),
{
    if new.len() == 0 {
        members
    } else {
        let prev = add_ints(members, new.drop_last());
        if is_i64(new.last().1) {
            add_int(prev, new.last().0, clamp_i64(int_of(Some(new.last().1))))
        } else {
            prev
        }
    }
}

/// The members of an object value, or none for another value.
pub open spec fn object_members(v: JsonView) -> Seq<(Seq<char>, JsonView)> {
    match v {
        JsonView::Object(m) => m,
        _ => Seq::empty(),
    }
}

/// Adds the `i64` members of `new` into the nested object `key` of `members` (the first member
/// so named, read as an empty object when it is no object), or appends that object.
pub open spec fn add_nested(members: Seq<(Seq<char>, JsonView)>, key: Seq<char>, new: Seq<(Seq<char>, JsonView)>) -> Seq<(Seq<char>, JsonView)>
    decreases members.len(),
{
    if members.len() == 0 {
        seq![(key, JsonView::Object(add_ints(Seq::empty(), new)))]
    } else if members[0].0 == key {
        seq![(key, JsonView::Object(add_ints(object_members(members[0].1), new)))] + members.drop_first()
    } else {
        seq![members[0]] + add_nested(members.drop_first(), key, new)
    }
}

/// What merging usage `new` into usage `old` gives. Only two objects merge. Usage with
/// `input_tokens` gets the token fields of `new` added, and the `cache_creation` object of `new`
/// added into its own when `new` has one. Otherwise usage with `total_token_usage` gets the
/// `total_token_usage` object of `new` added into its own when `new` has one. Anything else
/// stays as it was.
pub open spec fn merged_usage(old: JsonView, new: JsonView) -> JsonView {
    match (old, new) {
        (JsonView::Object(o), JsonView::Object(n)) => if view_get(o, "input_tokens"@) is Some {
            let t = add_token_fields(o, n);
            match view_get(n, "cache_creation"@) {
                Some(JsonView::Object(c)) => JsonView::Object(add_nested(t, "cache_creation"@, c)),
                _ => JsonView::Object(t),
            }
        } else if view_get(o, "total_token_usage"@) is Some {
            match view_get(n, "total_token_usage"@) {
                Some(JsonView::Object(c)) => JsonView::Object(add_nested(o, "total_token_usage"@, c)),
                _ => old,
            }
        } else {
            old
        },
        _ => old,
    }
}

proof fn lemma_int_of_int_view(x: i64)
    ensures
        int_of(Some(int_view(x))) == x,
        is_i64(int_view(x)),
{
}

/// Adding `n` to `key` sets `key` to the clamped sum and leaves every other name as it was.
proof fn lemma_add_int_get(ms: Seq<(Seq<char>, JsonView)>, key: Seq<char>, n: i64, other: Seq<char>)
    ensures
        int_of(view_get(add_int(ms, key, n), key)) == clamp_i64(int_of(view_get(ms, key)) + n),
        other != key ==> view_get(add_int(ms, key, n), other) == view_get(ms, other),
    decreases ms.len(),
{
    let r = add_int(ms, key, n);
    if ms.len() == 0 {
        assert(r[0] == (key, int_view(n)));
        lemma_int_of_int_view(n);
        assert(r.drop_first() =~= Seq::<(Seq<char>, JsonView)>::empty());
        assert(view_get(r.drop_first(), other) == view_get(Seq::<(Seq<char>, JsonView)>::empty(), other));
        assert(view_get(ms, other) is None);
    } else if ms[0].0 == key {
        lemma_int_of_int_view(clamp_i64(int_of(Some(ms[0].1)) + n));
        assert(r[0].0 == key);
        assert(r.drop_first() =~= ms.drop_first());
        assert(view_get(r.drop_first(), other) == view_get(ms.drop_first(), other));
    } else {
        lemma_add_int_get(ms.drop_first(), key, n, other);
        assert(r[0] == ms[0]);
        assert(r.drop_first() =~= add_int(ms.drop_first(), key, n));
        assert(view_get(r.drop_first(), other) == view_get(add_int(ms.drop_first(), key, n), other));
        assert(view_get(r.drop_first(), key) == view_get(add_int(ms.drop_first(), key, n), key));
    }
}

/// Adding into the nested object `key` leaves every other name as it was.
proof fn lemma_add_nested_get_other(ms: Seq<(Seq<char>, JsonView)>, key: Seq<char>, c: Seq<(Seq<char>, JsonView)>, other: Seq<char>)
    requires
        other != key,
    ensures
        view_get(add_nested(ms, key, c), other) == view_get(ms, other),
    decreases ms.len(),
{
    let r = add_nested(ms, key, c);
    if ms.len() == 0 {
        assert(r[0].0 == key);
        assert(r.drop_first() =~= Seq::<(Seq<char>, JsonView)>::empty());
        assert(view_get(r.drop_first(), other) == view_get(Seq::<(Seq<char>, JsonView)>::empty(), other));
        assert(view_get(ms, other) is None);
    } else if ms[0].0 == key {
        assert(r[0].0 == key);
        assert(r.drop_first() =~= ms.drop_first());
        assert(view_get(r.drop_first(), other) == view_get(ms.drop_first(), other));
    } else {
        lemma_add_nested_get_other(ms.drop_first(), key, c, other);
        assert(r[0] == ms[0]);
        assert(r.drop_first() =~= add_nested(ms.drop_first(), key, c));
        assert(view_get(r.drop_first(), other) == view_get(add_nested(ms.drop_first(), key, c), other));
    }
}

/// Adding field `g` of `new` changes only `g`, to the clamped sum of both values when `new`
/// holds `g` as an integer.
proof fn lemma_add_field_get(ms: Seq<(Seq<char>, JsonView)>, new: Seq<(Seq<char>, JsonView)>, g: Seq<char>, f: Seq<char>)
    ensures
        g != f ==> view_get(add_field(ms, new, g), f) == view_get(ms, f),
        g == f && (view_get(new, f) matches Some(v) && is_i64(v)) ==> int_of(view_get(add_field(ms, new, g), f))
            == clamp_i64(int_of(view_get(ms, f)) + int_of(view_get(new, f))),
        g == f && !(view_get(new, f) matches Some(v) && is_i64(v)) ==> view_get(add_field(ms, new, g), f) == view_get(ms, f),
{
    match view_get(new, g) {
        Some(v) => if is_i64(v) {
            lemma_add_int_get(ms, g, clamp_i64(int_of(Some(v))), f);
        },
        None => {},
    }
}

/// Whether `f` names one of the seven token fields of usage in the `input_tokens` format.
pub open spec fn is_token_field(f: Seq<char>) -> bool {
    f == "input_tokens"@ || f == "cache_creation_input_tokens"@ || f == "cache_read_input_tokens"@ || f == "output_tokens"@
        || f == "thoughts_tokens"@ || f == "tool_tokens"@ || f == "total_tokens"@
}

proof fn lemma_field_names()
    ensures
        "input_tokens"@.len() == 12 && "input_tokens"@[0] == 'i',
        "cache_creation_input_tokens"@.len() == 27 && "cache_creation_input_tokens"@[0] == 'c',
        "cache_read_input_tokens"@.len() == 23 && "cache_read_input_tokens"@[0] == 'c',
        "output_tokens"@.len() == 13 && "output_tokens"@[0] == 'o',
        "thoughts_tokens"@.len() == 15 && "thoughts_tokens"@[0] == 't',
        "tool_tokens"@.len() == 11 && "tool_tokens"@[0] == 't',
        "total_tokens"@.len() == 12 && "total_tokens"@[0] == 't',
        "cache_creation"@.len() == 14 && "cache_creation"@[0] == 'c',
        "total_token_usage"@.len() == 17,
{
    reveal_strlit("input_tokens");
    reveal_strlit("cache_creation_input_tokens");
    reveal_strlit("cache_read_input_tokens");
    reveal_strlit("output_tokens");
    reveal_strlit("thoughts_tokens");
    reveal_strlit("tool_tokens");
    reveal_strlit("total_tokens");
    reveal_strlit("cache_creation");
    reveal_strlit("total_token_usage");
}

/// Law: merging usage in the `input_tokens` format adds up each of the seven token fields
/// (`input_tokens`, `cache_creation_input_tokens`, `cache_read_input_tokens`, `output_tokens`,
/// `thoughts_tokens`, `tool_tokens`, `total_tokens`): where the new usage holds the field as an
/// integer, the merged field is the sum of both values (an absent or non-integer old value
/// counting as 0), held within the range of `i64`; where it does not, the field is as it was.
pub proof fn lemma_merge_adds_token_fields(old: JsonView, new: JsonView, f: Seq<char>)
    requires
        old is Object,
        new is Object,
        view_get(object_members(old), "input_tokens"@) is Some,
        is_token_field(f),
    ensures
        merged_usage(old, new) is Object,
        (view_get(object_members(new), f) matches Some(v) && is_i64(v)) ==> int_of(view_get(object_members(merged_usage(old, new)), f))
            == clamp_i64(int_of(view_get(object_members(old), f)) + int_of(view_get(object_members(new), f))),
        !(view_get(object_members(new), f) matches Some(v) && is_i64(v)) ==> view_get(object_members(merged_usage(old, new)), f)
            == view_get(object_members(old), f),
{
    lemma_field_names();
    let o = object_members(old);
    let n = object_members(new);
    let a = add_field(o, n, "input_tokens"@);
    let b = add_field(a, n, "cache_creation_input_tokens"@);
    let c = add_field(b, n, "cache_read_input_tokens"@);
    let d = add_field(c, n, "output_tokens"@);
    let e = add_field(d, n, "thoughts_tokens"@);
    let g = add_field(e, n, "tool_tokens"@);
    let t = add_field(g, n, "total_tokens"@);
    assert(t == add_token_fields(o, n));
    lemma_add_field_get(o, n, "input_tokens"@, f);
    lemma_add_field_get(a, n, "cache_creation_input_tokens"@, f);
    lemma_add_field_get(b, n, "cache_read_input_tokens"@, f);
    lemma_add_field_get(c, n, "output_tokens"@, f);
    lemma_add_field_get(d, n, "thoughts_tokens"@, f);
    lemma_add_field_get(e, n, "tool_tokens"@, f);
    lemma_add_field_get(g, n, "total_tokens"@, f);
    match view_get(n, "cache_creation"@) {
        Some(JsonView::Object(cc)) => {
            assert(f != "cache_creation"@);
            lemma_add_nested_get_other(t, "cache_creation"@, cc, f);
        },
        _ => {},
    }
}

/// Law: usage merges only into usage: when either side is not an object, the existing usage
/// stays as it was.
pub proof fn lemma_merge_keeps_non_objects(old: JsonView, new: JsonView)
    requires
        !(old is Object) || !(new is Object),
    ensures
        merged_usage(old, new) == old,
{
}

/// No two members share a name.
pub open spec fn view_names_distinct(ms: Seq<(Seq<char>, JsonView)>) -> bool {
    forall|i: int, j: int| 0 <= i < j < ms.len() ==> #[trigger] ms[i].0 != #[trigger] ms[j].0
}

/// The members of the object that `ms` holds under `key`, or none.
pub open spec fn nested_members(ms: Seq<(Seq<char>, JsonView)>, key: Seq<char>) -> Seq<(Seq<char>, JsonView)> {
    match view_get(ms, key) {
        Some(v) => object_members(v),
        None => Seq::empty(),
    }
}

proof fn lemma_view_get_push(ms: Seq<(Seq<char>, JsonView)>, x: (Seq<char>, JsonView), k: Seq<char>)
    ensures
        view_get(ms.push(x), k) == (if view_get(ms, k) is Some { view_get(ms, k) } else if x.0 == k { Some(x.1) } else { None }),
    decreases ms.len(),
{
    if ms.len() == 0 {
        assert(ms.push(x).drop_first() =~= Seq::<(Seq<char>, JsonView)>::empty());
        assert(view_get(ms.push(x).drop_first(), k) == view_get(Seq::<(Seq<char>, JsonView)>::empty(), k));
    } else {
        lemma_view_get_push(ms.drop_first(), x, k);
        assert(ms.push(x).drop_first() =~= ms.drop_first().push(x));
        assert(ms.push(x)[0] == ms[0]);
    }
}

proof fn lemma_view_get_absent(ms: Seq<(Seq<char>, JsonView)>, k: Seq<char>)
    requires
        forall|i: int| 0 <= i < ms.len() ==> (#[trigger] ms[i]).0 != k,
    ensures
        view_get(ms, k) is None,
    decreases ms.len(),
{
    if ms.len() > 0 {
        assert forall|i: int| 0 <= i < ms.drop_first().len() implies (#[trigger] ms.drop_first()[i]).0 != k by {
            assert(ms.drop_first()[i] == ms[i + 1]);
        }
        lemma_view_get_absent(ms.drop_first(), k);
        assert(ms[0].0 != k);
    }
}

/// Adding the integer members of `c` (distinct names) sets each name that `c` holds as an
/// integer to the clamped sum, and leaves every other name as it was.
proof fn lemma_add_ints_get(ms: Seq<(Seq<char>, JsonView)>, c: Seq<(Seq<char>, JsonView)>, k: Seq<char>)
    requires
        view_names_distinct(c),
    ensures
        (view_get(c, k) matches Some(v) && is_i64(v)) ==> int_of(view_get(add_ints(ms, c), k))
            == clamp_i64(int_of(view_get(ms, k)) + int_of(view_get(c, k))),
        !(view_get(c, k) matches Some(v) && is_i64(v)) ==> view_get(add_ints(ms, c), k) == view_get(ms, k),
    decreases c.len(),
{
    if c.len() == 0 {
        assert(view_get(c, k) is None);
    } else {
        let prev = c.drop_last();
        let x = c.last();
        assert(view_names_distinct(prev)) by {
            assert forall|i: int, j: int| 0 <= i < j < prev.len() implies #[trigger] prev[i].0 != #[trigger] prev[j].0 by {
                assert(prev[i] == c[i] && prev[j] == c[j]);
            }
        }
        lemma_add_ints_get(ms, prev, k);
        assert(prev.push(x) =~= c);
        lemma_view_get_push(prev, x, k);
        let p = add_ints(ms, prev);
        if x.0 == k {
            assert forall|i: int| 0 <= i < prev.len() implies (#[trigger] prev[i]).0 != k by {
                assert(prev[i] == c[i]);
                assert(c[i].0 != c[c.len() - 1].0);
            }
            lemma_view_get_absent(prev, k);
            if is_i64(x.1) {
                lemma_add_int_get(p, k, clamp_i64(int_of(Some(x.1))), k);
            }
        } else if is_i64(x.1) {
            lemma_add_int_get(p, x.0, clamp_i64(int_of(Some(x.1))), k);
        }
    }
}

/// Adding into the nested object `key` makes it the object of the old nested members (none where
/// there was no such member) with `c`'s integers added.
proof fn lemma_add_nested_get_key(ms: Seq<(Seq<char>, JsonView)>, key: Seq<char>, c: Seq<(Seq<char>, JsonView)>)
    ensures
        view_get(add_nested(ms, key, c), key) == Some(JsonView::Object(add_ints(nested_members(ms, key), c))),
    decreases ms.len(),
{
    let r = add_nested(ms, key, c);
    if ms.len() == 0 {
        assert(r[0].0 == key);
    } else if ms[0].0 == key {
        assert(r[0].0 == key);
    } else {
        lemma_add_nested_get_key(ms.drop_first(), key, c);
        assert(r[0] == ms[0]);
        assert(r.drop_first() =~= add_nested(ms.drop_first(), key, c));
        assert(view_get(r.drop_first(), key) == view_get(add_nested(ms.drop_first(), key, c), key));
    }
}

/// Law: merging also adds up nested counts. In the `input_tokens` format, when the new usage
/// has a `cache_creation` object (each name once), every integer in it is added to the same
/// name of the merged usage's `cache_creation` object (absent counting as 0), within the range
/// of `i64`, and every other name there is as it was. In the `total_token_usage` format
/// (existing usage without `input_tokens` but with `total_token_usage`), the same holds of the
/// new usage's `total_token_usage` object.
pub proof fn lemma_merge_adds_nested_counts(old: JsonView, new: JsonView, k: Seq<char>)
    requires
        old is Object,
        new is Object,
    ensures
        ({
            let o = object_members(old);
            let n = object_members(new);
            let m = object_members(merged_usage(old, new));
            let c1 = nested_members(n, "cache_creation"@);
            let c2 = nested_members(n, "total_token_usage"@);
            &&& view_get(o, "input_tokens"@) is Some && (view_get(n, "cache_creation"@) matches Some(JsonView::Object(_)))
                && view_names_distinct(c1) ==> {
                &&& (view_get(c1, k) matches Some(v) && is_i64(v)) ==> int_of(view_get(nested_members(m, "cache_creation"@), k))
                    == clamp_i64(int_of(view_get(nested_members(o, "cache_creation"@), k)) + int_of(view_get(c1, k)))
                &&& !(view_get(c1, k) matches Some(v) && is_i64(v)) ==> view_get(nested_members(m, "cache_creation"@), k)
                    == view_get(nested_members(o, "cache_creation"@), k)
            }
            &&& view_get(o, "input_tokens"@) is None && view_get(o, "total_token_usage"@) is Some
                && (view_get(n, "total_token_usage"@) matches Some(JsonView::Object(_))) && view_names_distinct(c2) ==> {
                &&& (view_get(c2, k) matches Some(v) && is_i64(v)) ==> int_of(view_get(nested_members(m, "total_token_usage"@), k))
                    == clamp_i64(int_of(view_get(nested_members(o, "total_token_usage"@), k)) + int_of(view_get(c2, k)))
                &&& !(view_get(c2, k) matches Some(v) && is_i64(v)) ==> view_get(nested_members(m, "total_token_usage"@), k)
                    == view_get(nested_members(o, "total_token_usage"@), k)
            }
        }),
{
    lemma_field_names();
    let o = object_members(old);
    let n = object_members(new);
    if view_get(o, "input_tokens"@) is Some {
        match view_get(n, "cache_creation"@) {
            Some(JsonView::Object(c)) => {
                let t = add_token_fields(o, n);
                let a = add_field(o, n, "input_tokens"@);
                let b = add_field(a, n, "cache_creation_input_tokens"@);
                let cc = add_field(b, n, "cache_read_input_tokens"@);
                let d = add_field(cc, n, "output_tokens"@);
                let e = add_field(d, n, "thoughts_tokens"@);
                let g = add_field(e, n, "tool_tokens"@);
                let key = "cache_creation"@;
                lemma_add_field_get(o, n, "input_tokens"@, key);
                lemma_add_field_get(a, n, "cache_creation_input_tokens"@, key);
                lemma_add_field_get(b, n, "cache_read_input_tokens"@, key);
                lemma_add_field_get(cc, n, "output_tokens"@, key);
                lemma_add_field_get(d, n, "thoughts_tokens"@, key);
                lemma_add_field_get(e, n, "tool_tokens"@, key);
                lemma_add_field_get(g, n, "total_tokens"@, key);
                assert(nested_members(t, key) == nested_members(o, key));
                lemma_add_nested_get_key(t, key, c);
                if view_names_distinct(c) {
                    lemma_add_ints_get(nested_members(t, key), c, k);
                }
            },
            _ => {},
        }
    } else if view_get(o, "total_token_usage"@) is Some {
        match view_get(n, "total_token_usage"@) {
            Some(JsonView::Object(c)) => {
                lemma_add_nested_get_key(o, "total_token_usage"@, c);
                if view_names_distinct(c) {
                    lemma_add_ints_get(nested_members(o, "total_token_usage"@), c, k);
                }
            },
            _ => {},
        }
    }
}

fn owned(s: &str) -> (r: String)
    ensures
        r@ == s@,
{
    let r = s.to_string();
    proof {
        vstd::string::to_string_from_display_ensures_for_str(s, r);
    }
    r
}

/// A deep copy of a JSON value.
pub fn clone_json(j: &Json) -> (r: Json)
    ensures
        json_view(r) == json_view(*j),
    decreases j,
{
    match j {
        Json::Null => Json::Null,
        Json::Bool(b) => Json::Bool(*b),
        Json::Number(n) => Json::Number(match n {
            JsonNumber::PosInt(x) => JsonNumber::PosInt(*x),
            JsonNumber::NegInt(x) => JsonNumber::NegInt(*x),
            JsonNumber::Float => JsonNumber::Float,
        }),
        Json::Str(s) => Json::Str(s.clone()),
        Json::Array(items) => {
            let mut out: Vec<Json> = Vec::with_capacity(items.len());
            let n = items.len();
            for i in 0..n
                invariant
                    *j == Json::Array(*items),
                    n == items@.len(),
                    out@.len() == i,
                    forall|k: int| 0 <= k < i ==> json_view(#[trigger] out@[k]) == json_view(items@[k]),
            {
                proof {
                    assert(decreases_to!(*j => (*j)->Array_0));
                    assert(decreases_to!(*items => items@));
                    assert(decreases_to!(items@ => items@[i as int]));
                    assert(decreases_to!(*j => items@[i as int]));
                }
                let c = clone_json(&items[i]);
                out.push(c);
            }
            proof {
                lemma_items_view_eq(out@, items@);
            }
            Json::Array(out)
        },
        Json::Object(members) => {
            let mut out: Vec<JsonMember> = Vec::with_capacity(members.len());
            let n = members.len();
            for i in 0..n
                invariant
                    *j == Json::Object(*members),
                    n == members@.len(),
                    out@.len() == i,
                    forall|k: int| 0 <= k < i ==> (#[trigger] out@[k]).key@ == members@[k].key@
                        && json_view(out@[k].value) == json_view(members@[k].value),
            {
                proof {
                    assert(decreases_to!(*j => (*j)->Object_0));
                    assert(decreases_to!(*members => members@));
                    assert(decreases_to!(members@ => members@[i as int]));
                    assert(decreases_to!(members@[i as int] => members@[i as int].value));
                    assert(decreases_to!(*j => members@[i as int].value));
                }
                let c = clone_json(&members[i].value);
                out.push(JsonMember { key: members[i].key.clone(), value: c });
            }
            proof {
                lemma_members_view_eq(out@, members@);
            }
            Json::Object(out)
        },
    }
}

proof fn lemma_items_view_eq(a: Seq<Json>, b: Seq<Json>)
    requires
        a.len() == b.len(),
        forall|k: int| 0 <= k < a.len() ==> json_view(#[trigger] a[k]) == json_view(b[k]),
    ensures
        items_view(a) == items_view(b),
    decreases a.len(),
{
    if a.len() > 0 {
        assert forall|k: int| 0 <= k < a.drop_first().len() implies json_view(#[trigger] a.drop_first()[k]) == json_view(b.drop_first()[k]) by {
            assert(json_view(a[k + 1]) == json_view(b[k + 1]));
        }
        lemma_items_view_eq(a.drop_first(), b.drop_first());
        assert(json_view(a[0]) == json_view(b[0]));
    }
}

proof fn lemma_members_view_eq(a: Seq<JsonMember>, b: Seq<JsonMember>)
    requires
        a.len() == b.len(),
        forall|k: int| 0 <= k < a.len() ==> (#[trigger] a[k]).key@ == b[k].key@ && json_view(a[k].value) == json_view(b[k].value),
    ensures
        members_view(a) == members_view(b),
    decreases a.len(),
{
    if a.len() > 0 {
        assert forall|k: int| 0 <= k < a.drop_first().len() implies (#[trigger] a.drop_first()[k]).key@ == b.drop_first()[k].key@
            && json_view(a.drop_first()[k].value) == json_view(b.drop_first()[k].value) by {
            assert(a[k + 1].key@ == b[k + 1].key@ && json_view(a[k + 1].value) == json_view(b[k + 1].value));
        }
        lemma_members_view_eq(a.drop_first(), b.drop_first());
        assert(a[0].key@ == b[0].key@ && json_view(a[0].value) == json_view(b[0].value));
    }
}

proof fn lemma_members_view_push(s: Seq<JsonMember>, x: JsonMember)
    ensures
        members_view(s.push(x)) == members_view(s) + seq![(x.key@, json_view(x.value))],
    decreases s.len(),
{
    if s.len() == 0 {
        assert(s.push(x).drop_first() =~= Seq::<JsonMember>::empty());
        assert(members_view(s.push(x).drop_first()) == Seq::<(Seq<char>, JsonView)>::empty());
        assert(s.push(x)[0] == x);
        assert(members_view(s) == Seq::<(Seq<char>, JsonView)>::empty());
        assert(members_view(s.push(x)) =~= seq![(x.key@, json_view(x.value))]);
    } else {
        lemma_members_view_push(s.drop_first(), x);
        assert(s.push(x).drop_first() =~= s.drop_first().push(x));
        assert(members_view(s.push(x)) =~= members_view(s) + seq![(x.key@, json_view(x.value))]);
    }
}

proof fn lemma_members_view_front(s: Seq<JsonMember>)
    requires
        s.len() > 0,
    ensures
        members_view(s) == seq![(s[0].key@, json_view(s[0].value))] + members_view(s.drop_first()),
{
}

fn int_json(n: i64) -> (r: Json)
    ensures
        json_view(r) == int_view(n),
{
    if n >= 0 {
        Json::Number(JsonNumber::PosInt(n as u64))
    } else {
        Json::Number(JsonNumber::NegInt(n))
    }
}

fn int_or_zero(v: &Json) -> (r: i64)
    ensures
        r == int_of(Some(json_view(*v))),
        is_i64(json_view(*v)) ==> r == clamp_i64(int_of(Some(json_view(*v)))),
{
    match v.as_i64() {
        Some(x) => x,
        None => 0,
    }
}

fn add_clamped(a: i64, b: i64) -> (r: i64)
    ensures
        r == clamp_i64(a + b),
{
    match a.checked_add(b) {
        Some(s) => s,
        None => if b > 0 { i64::MAX } else { i64::MIN },
    }
}

/// Adds `n` to the member `key` of `members` (see `add_int`).
fn add_int_member(members: &mut Vec<JsonMember>, key: &str, n: i64)
    ensures
        members_view(final(members)@) == add_int(members_view(old(members)@), key@, n),
{
    let mut rest: Vec<JsonMember> = Vec::new();
    std::mem::swap(&mut rest, members);
    let ghost goal = add_int(members_view(rest@), key@, n);
    let mut out: Vec<JsonMember> = Vec::new();
    let mut found = false;
    while rest.len() > 0
        invariant
            found ==> goal == members_view(out@) + members_view(rest@),
            !found ==> goal == members_view(out@) + add_int(members_view(rest@), key@, n),
        decreases rest@.len(),
    {
        let ghost old_rest = rest@;
        let ghost old_out = out@;
        let m = rest.remove(0);
        proof {
            assert(rest@ =~= old_rest.drop_first());
            lemma_members_view_front(old_rest);
        }
        if !found && str_equal(m.key.as_str(), key) {
            let JsonMember { key: k, value: v } = m;
            let sum = add_clamped(int_or_zero(&v), n);
            let x = JsonMember { key: k, value: int_json(sum) };
            out.push(x);
            found = true;
            proof {
                lemma_members_view_push(old_out, x);
                assert(goal =~= members_view(out@) + members_view(rest@));
            }
        } else {
            let ghost x = m;
            out.push(m);
            proof {
                lemma_members_view_push(old_out, x);
                if found {
                    assert(goal =~= members_view(out@) + members_view(rest@));
                } else {
                    let vr = members_view(old_rest);
                    assert(vr[0].0 != key@);
                    assert(vr.drop_first() == members_view(rest@));
                    assert(add_int(vr, key@, n) == seq![vr[0]] + add_int(vr.drop_first(), key@, n));
                    assert(goal =~= members_view(out@) + add_int(members_view(rest@), key@, n));
                }
            }
        }
    }
    if !found {
        let ghost old_out = out@;
        let x = JsonMember { key: owned(key), value: int_json(n) };
        out.push(x);
        proof {
            lemma_members_view_push(old_out, x);
            assert(goal =~= members_view(out@));
        }
    } else {
        assert(goal =~= members_view(out@));
    }
    *members = out;
}

/// Adds every `i64` member of `new` to `members` (see `add_ints`).
fn add_ints_into(members: &mut Vec<JsonMember>, new: &Vec<JsonMember>)
    ensures
        members_view(final(members)@) == add_ints(members_view(old(members)@), members_view(new@)),
{
    let ghost start = members_view(members@);
    let n = new.len();
    assert(new@.take(0) =~= Seq::<JsonMember>::empty());
    for i in 0..n
        invariant
            n == new@.len(),
            members_view(members@) == add_ints(start, members_view(new@.take(i as int))),
    {
        proof {
            assert(new@.take(i + 1) =~= new@.take(i as int).push(new@[i as int]));
            lemma_members_view_push(new@.take(i as int), new@[i as int]);
            let nv = members_view(new@.take(i + 1));
            assert(nv.drop_last() =~= members_view(new@.take(i as int)));
        }
        let v = &new[i].value;
        match v.as_i64() {
            Some(x) => {
                add_int_member(members, new[i].key.as_str(), x);
            },
            None => {},
        }
    }
    assert(new@.take(n as int) =~= new@);
}

/// Adds the `i64` members of `new` into the nested object `key` of `members` (see `add_nested`).
fn add_nested_member(members: &mut Vec<JsonMember>, key: &str, new: &Vec<JsonMember>)
    ensures
        members_view(final(members)@) == add_nested(members_view(old(members)@), key@, members_view(new@)),
{
    let ghost nv = members_view(new@);
    let mut rest: Vec<JsonMember> = Vec::new();
    std::mem::swap(&mut rest, members);
    let ghost goal = add_nested(members_view(rest@), key@, nv);
    let mut out: Vec<JsonMember> = Vec::new();
    let mut found = false;
    while rest.len() > 0
        invariant
            nv == members_view(new@),
            found ==> goal == members_view(out@) + members_view(rest@),
            !found ==> goal == members_view(out@) + add_nested(members_view(rest@), key@, nv),
        decreases rest@.len(),
    {
        let ghost old_rest = rest@;
        let ghost old_out = out@;
        let m = rest.remove(0);
        proof {
            assert(rest@ =~= old_rest.drop_first());
            lemma_members_view_front(old_rest);
        }
        if !found && str_equal(m.key.as_str(), key) {
            let JsonMember { key: k, value: v } = m;
            let mut inner = match v {
                Json::Object(o) => o,
                _ => Vec::new(),
            };
            assert(members_view(inner@) == object_members(json_view(v)));
            add_ints_into(&mut inner, new);
            let x = JsonMember { key: k, value: Json::Object(inner) };
            out.push(x);
            found = true;
            proof {
                lemma_members_view_push(old_out, x);
                assert(goal =~= members_view(out@) + members_view(rest@));
            }
        } else {
            let ghost x = m;
            out.push(m);
            proof {
                lemma_members_view_push(old_out, x);
                if found {
                    assert(goal =~= members_view(out@) + members_view(rest@));
                } else {
                    let vr = members_view(old_rest);
                    assert(vr[0].0 != key@);
                    assert(vr.drop_first() == members_view(rest@));
                    assert(add_nested(vr, key@, nv) == seq![vr[0]] + add_nested(vr.drop_first(), key@, nv));
                    assert(goal =~= members_view(out@) + add_nested(members_view(rest@), key@, nv));
                }
            }
        }
    }
    if !found {
        let ghost old_out = out@;
        let mut inner: Vec<JsonMember> = Vec::new();
        add_ints_into(&mut inner, new);
        assert(members_view(Seq::<JsonMember>::empty()) =~= Seq::<(Seq<char>, JsonView)>::empty());
        let x = JsonMember { key: owned(key), value: Json::Object(inner) };
        out.push(x);
        proof {
            lemma_members_view_push(old_out, x);
            assert(goal =~= members_view(out@));
        }
    } else {
        assert(goal =~= members_view(out@));
    }
    *members = out;
}

/// Adds the `i64` member `field` of the object `new` to `members` (see `add_field`).
fn add_field_member(members: &mut Vec<JsonMember>, new: &Json, field: &str)
    requires
        new is Object,
    ensures
        members_view(final(members)@) == add_field(members_view(old(members)@), object_members(json_view(*new)), field@),
{
    proof {
        lemma_get_view(new->Object_0@, field@);
    }
    match new.get(field) {
        Some(v) => match v.as_i64() {
            Some(x) => {
                add_int_member(members, field, x);
            },
            None => {},
        },
        None => {},
    }
}

/// Merges usage `new` into usage `existing` (see `merged_usage`): token counts are added up,
/// each sum held within the range of `i64`.
pub fn merge_usage_values(existing: &mut Json, new: &Json)
    ensures
        json_view(*final(existing)) == merged_usage(json_view(*old(existing)), json_view(*new)),
{
    let mut cur = Json::Null;
    std::mem::swap(&mut cur, existing);
    let has_input = cur.get("input_tokens").is_some();
    let has_total = cur.get("total_token_usage").is_some();
    let new_is_object = match new {
        Json::Object(_) => true,
        _ => false,
    };
    proof {
        if cur is Object {
            lemma_get_view(cur->Object_0@, "input_tokens"@);
            lemma_get_view(cur->Object_0@, "total_token_usage"@);
        }
        if new is Object {
            lemma_get_view(new->Object_0@, "cache_creation"@);
            lemma_get_view(new->Object_0@, "total_token_usage"@);
        }
    }
    let ghost old_view = json_view(cur);
    let merged = match cur {
        Json::Object(mut o) => {
            if !new_is_object {
                Json::Object(o)
            } else if has_input {
                add_field_member(&mut o, new, "input_tokens");
                add_field_member(&mut o, new, "cache_creation_input_tokens");
                add_field_member(&mut o, new, "cache_read_input_tokens");
                add_field_member(&mut o, new, "output_tokens");
                add_field_member(&mut o, new, "thoughts_tokens");
                add_field_member(&mut o, new, "tool_tokens");
                add_field_member(&mut o, new, "total_tokens");
                match new.get("cache_creation") {
                    Some(Json::Object(c)) => {
                        add_nested_member(&mut o, "cache_creation", c);
                    },
                    _ => {},
                }
                Json::Object(o)
            } else if has_total {
                match new.get("total_token_usage") {
                    Some(Json::Object(c)) => {
                        add_nested_member(&mut o, "total_token_usage", c);
                    },
                    _ => {},
                }
                Json::Object(o)
            } else {
                Json::Object(o)
            }
        },
        other => other,
    };
    assert(json_view(merged) == merged_usage(old_view, json_view(*new)));
    *existing = merged;
}

/// Merges usage `usage` of `model` into per-model usage: into the entry of `model` when there is
/// one, else as a new entry at the end.
pub open spec fn merge_step(acc: Seq<(Seq<char>, JsonView)>, model: Seq<char>, usage: JsonView) -> Seq<(Seq<char>, JsonView)>
    decreases acc.len(),
{
    if acc.len() == 0 {
        seq![(model, usage)]
    } else if acc[0].0 == model {
        seq![(model, merged_usage(acc[0].1, usage))] + acc.drop_first()
    } else {
        seq![acc[0]] + merge_step(acc.drop_first(), model, usage)
    }
}

/// Usage records merged model by model, in order: one entry per model, in the order in which the
/// models first appear, each the merge of that model's usages in order.
pub open spec fn usage_by_model(pairs: Seq<(Seq<char>, JsonView)>) -> Seq<(Seq<char>, JsonView)>
    decreases pairs.len(),
{
    if pairs.len() == 0 {
        Seq::empty()
    } else {
        merge_step(usage_by_model(pairs.drop_last()), pairs.last().0, pairs.last().1)
    }
}

/// The models of per-model usage.
pub open spec fn models_of(entries: Seq<(Seq<char>, JsonView)>) -> Seq<Seq<char>> {
    entries.map_values(|e: (Seq<char>, JsonView)| e.0)
}

proof fn lemma_merge_step_models(acc: Seq<(Seq<char>, JsonView)>, model: Seq<char>, usage: JsonView)
    requires
        models_of(acc).no_duplicates(),
    ensures
        models_of(merge_step(acc, model, usage)).no_duplicates(),
        models_of(merge_step(acc, model, usage)).to_set() == models_of(acc).to_set().insert(model),
    decreases acc.len(),
{
    let r = merge_step(acc, model, usage);
    if acc.len() == 0 {
        assert(models_of(r) =~= seq![model]);
        assert(models_of(acc).to_set() =~= Set::<Seq<char>>::empty());
        assert forall|m: Seq<char>| seq![model].to_set().contains(m) <==> Set::<Seq<char>>::empty().insert(model).contains(m) by {
            assert(seq![model][0] == model);
        }
        assert(seq![model].to_set() =~= Set::<Seq<char>>::empty().insert(model));
    } else {
        let rest = acc.drop_first();
        assert(models_of(rest) =~= models_of(acc).drop_first());
        assert(models_of(rest).no_duplicates());
        if acc[0].0 == model {
            assert(models_of(r) =~= models_of(acc));
            assert(models_of(acc).to_set() =~= models_of(acc).to_set().insert(model)) by {
                assert(models_of(acc)[0] == model);
            }
        } else {
            lemma_merge_step_models(rest, model, usage);
            let rr = merge_step(rest, model, usage);
            assert(models_of(r) =~= seq![acc[0].0] + models_of(rr));
            assert forall|i: int, j: int| 0 <= i < models_of(r).len() && 0 <= j < models_of(r).len() && i != j
                implies models_of(r)[i] != models_of(r)[j] by {
                if i > 0 && j > 0 {
                    assert(models_of(r)[i] == models_of(rr)[i - 1]);
                    assert(models_of(r)[j] == models_of(rr)[j - 1]);
                } else {
                    let k = if i == 0 { j } else { i };
                    assert(models_of(r)[k] == models_of(rr)[k - 1]);
                    assert(models_of(rr).to_set().contains(models_of(rr)[k - 1]));
                    if models_of(rr)[k - 1] == acc[0].0 {
                        assert(acc[0].0 != model);
                        assert(models_of(rest).to_set().contains(acc[0].0));
                        let q = choose|q: int| 0 <= q < models_of(rest).len() && models_of(rest)[q] == acc[0].0;
                        assert(models_of(acc)[q + 1] == models_of(acc)[0]);
                    }
                }
            }
            assert(models_of(r).to_set() =~= models_of(acc).to_set().insert(model)) by {
                assert forall|m: Seq<char>| models_of(r).to_set().contains(m) <==> models_of(acc).to_set().insert(model).contains(m) by {
                    if models_of(r).contains(m) {
                        let i = choose|i: int| 0 <= i < models_of(r).len() && models_of(r)[i] == m;
                        if i > 0 {
                            assert(models_of(rr)[i - 1] == m);
                            assert(models_of(rr).to_set().contains(m));
                            if m != model {
                                assert(models_of(rest).to_set().contains(m));
                                let q = choose|q: int| 0 <= q < models_of(rest).len() && models_of(rest)[q] == m;
                                assert(models_of(acc)[q + 1] == m);
                            }
                        } else {
                            assert(models_of(acc)[0] == m);
                        }
                    }
                    if models_of(acc).to_set().insert(model).contains(m) {
                        if m == model {
                            assert(models_of(rr).to_set().contains(m));
                            let q = choose|q: int| 0 <= q < models_of(rr).len() && models_of(rr)[q] == m;
                            assert(models_of(r)[q + 1] == m);
                        } else {
                            let q = choose|q: int| 0 <= q < models_of(acc).len() && models_of(acc)[q] == m;
                            if q == 0 {
                                assert(models_of(r)[0] == m);
                            } else {
                                assert(models_of(rest)[q - 1] == m);
                                assert(models_of(rr).to_set().contains(m));
                                let q2 = choose|q2: int| 0 <= q2 < models_of(rr).len() && models_of(rr)[q2] == m;
                                assert(models_of(r)[q2 + 1] == m);
                            }
                        }
                    }
                }
            }
        }
    }
}

/// Law: usage merged model by model names each model once, and exactly the models that the
/// usage records name.
pub proof fn lemma_usage_by_model_models(pairs: Seq<(Seq<char>, JsonView)>)
    ensures
        models_of(usage_by_model(pairs)).no_duplicates(),
        models_of(usage_by_model(pairs)).to_set() == pairs.map_values(|p: (Seq<char>, JsonView)| p.0).to_set(),
    decreases pairs.len(),
{
    if pairs.len() == 0 {
        assert(models_of(usage_by_model(pairs)) =~= Seq::<Seq<char>>::empty());
        assert(pairs.map_values(|p: (Seq<char>, JsonView)| p.0) =~= Seq::<Seq<char>>::empty());
    } else {
        lemma_usage_by_model_models(pairs.drop_last());
        lemma_merge_step_models(usage_by_model(pairs.drop_last()), pairs.last().0, pairs.last().1);
        let keys = pairs.map_values(|p: (Seq<char>, JsonView)| p.0);
        assert(keys =~= pairs.drop_last().map_values(|p: (Seq<char>, JsonView)| p.0).push(pairs.last().0));
        assert(keys.to_set() =~= pairs.drop_last().map_values(|p: (Seq<char>, JsonView)| p.0).to_set().insert(pairs.last().0)) by {
            assert forall|m: Seq<char>| keys.to_set().contains(m) <==> pairs.drop_last().map_values(|p: (Seq<char>, JsonView)| p.0).to_set().insert(pairs.last().0).contains(m) by {
                let dk = pairs.drop_last().map_values(|p: (Seq<char>, JsonView)| p.0);
                if keys.contains(m) {
                    let i = choose|i: int| 0 <= i < keys.len() && keys[i] == m;
                    if i < dk.len() {
                        assert(dk[i] == m);
                    }
                }
                if dk.contains(m) {
                    let i = choose|i: int| 0 <= i < dk.len() && dk[i] == m;
                    assert(keys[i] == m);
                }
                if m == pairs.last().0 {
                    assert(keys[keys.len() - 1] == m);
                }
            }
        }
    }
}

/// Law: each usage record merges into the entry of its own model only: after one more record of
/// `model`, that model's entry is the merge of its earlier entry with the record (or the record
/// itself when the model had none), and every other model's entry is as it was.
pub proof fn lemma_usage_by_model_step(pairs: Seq<(Seq<char>, JsonView)>, model: Seq<char>, usage: JsonView, other: Seq<char>)
    ensures
        view_get(usage_by_model(pairs.push((model, usage))), model) == (match view_get(usage_by_model(pairs), model) {
            Some(u) => Some(merged_usage(u, usage)),
            None => Some(usage),
        }),
        other != model ==> view_get(usage_by_model(pairs.push((model, usage))), other) == view_get(usage_by_model(pairs), other),
{
    let p2 = pairs.push((model, usage));
    assert(p2.drop_last() =~= pairs);
    lemma_merge_step_get(usage_by_model(pairs), model, usage, other);
}

proof fn lemma_merge_step_get(acc: Seq<(Seq<char>, JsonView)>, model: Seq<char>, usage: JsonView, other: Seq<char>)
    ensures
        view_get(merge_step(acc, model, usage), model) == (match view_get(acc, model) {
            Some(u) => Some(merged_usage(u, usage)),
            None => Some(usage),
        }),
        other != model ==> view_get(merge_step(acc, model, usage), other) == view_get(acc, other),
    decreases acc.len(),
{
    let r = merge_step(acc, model, usage);
    if acc.len() == 0 {
        assert(r[0].0 == model);
        assert(r.drop_first() =~= Seq::<(Seq<char>, JsonView)>::empty());
        assert(view_get(r.drop_first(), other) == view_get(Seq::<(Seq<char>, JsonView)>::empty(), other));
        assert(view_get(acc, other) is None);
    } else if acc[0].0 == model {
        assert(r[0].0 == model);
        assert(r.drop_first() =~= acc.drop_first());
        assert(view_get(r.drop_first(), other) == view_get(acc.drop_first(), other));
    } else {
        lemma_merge_step_get(acc.drop_first(), model, usage, other);
        assert(r[0] == acc[0]);
        assert(r.drop_first() =~= merge_step(acc.drop_first(), model, usage));
        assert(view_get(r.drop_first(), other) == view_get(merge_step(acc.drop_first(), model, usage), other));
        assert(view_get(r.drop_first(), model) == view_get(merge_step(acc.drop_first(), model, usage), model));
    }
}

/// Merges `usage` of `model` into per-model usage `acc` (see `merge_step`).
fn merge_into(acc: &mut Vec<JsonMember>, model: &String, usage: &Json)
    ensures
        members_view(final(acc)@) == merge_step(members_view(old(acc)@), model@, json_view(*usage)),
{
    let ghost uv = json_view(*usage);
    let mut rest: Vec<JsonMember> = Vec::new();
    std::mem::swap(&mut rest, acc);
    let ghost goal = merge_step(members_view(rest@), model@, uv);
    let mut out: Vec<JsonMember> = Vec::new();
    let mut found = false;
    while rest.len() > 0
        invariant
            uv == json_view(*usage),
            found ==> goal == members_view(out@) + members_view(rest@),
            !found ==> goal == members_view(out@) + merge_step(members_view(rest@), model@, uv),
        decreases rest@.len(),
    {
        let ghost old_rest = rest@;
        let ghost old_out = out@;
        let m = rest.remove(0);
        proof {
            assert(rest@ =~= old_rest.drop_first());
            lemma_members_view_front(old_rest);
        }
        if !found && str_equal(m.key.as_str(), model.as_str()) {
            let JsonMember { key: k, value: mut v } = m;
            merge_usage_values(&mut v, usage);
            let x = JsonMember { key: k, value: v };
            out.push(x);
            found = true;
            proof {
                lemma_members_view_push(old_out, x);
                assert(goal =~= members_view(out@) + members_view(rest@));
            }
        } else {
            let ghost x = m;
            out.push(m);
            proof {
                lemma_members_view_push(old_out, x);
                if found {
                    assert(goal =~= members_view(out@) + members_view(rest@));
                } else {
                    let vr = members_view(old_rest);
                    assert(vr[0].0 != model@);
                    assert(vr.drop_first() == members_view(rest@));
                    assert(merge_step(vr, model@, uv) == seq![vr[0]] + merge_step(vr.drop_first(), model@, uv));
                    assert(goal =~= members_view(out@) + merge_step(members_view(rest@), model@, uv));
                }
            }
        }
    }
    if !found {
        let ghost old_out = out@;
        let x = JsonMember { key: model.clone(), value: clone_json(usage) };
        out.push(x);
        proof {
            lemma_members_view_push(old_out, x);
            assert(goal =~= members_view(out@));
        }
    } else {
        assert(goal =~= members_view(out@));
    }
    *acc = out;
}

/// The (model, usage) pairs of usage maps, map after map, each in its own order.
pub open spec fn maps_pairs(maps: Seq<Vec<JsonMember>>) -> Seq<(Seq<char>, JsonView)>
    decreases maps.len(),
{
    if maps.len() == 0 {
        Seq::empty()
    } else {
        maps_pairs(maps.drop_last()) + members_view(maps.last()@)
    }
}

/// Merges the usage of `map` into `acc`, model by model in the order of `map`.
fn merge_map_into(acc: &mut Vec<JsonMember>, map: &Vec<JsonMember>)
    ensures
        members_view(final(acc)@) == usage_by_model_from(members_view(old(acc)@), members_view(map@)),
{
    let ghost start = members_view(acc@);
    let n = map.len();
    assert(map@.take(0) =~= Seq::<JsonMember>::empty());
    for i in 0..n
        invariant
            n == map@.len(),
            members_view(acc@) == usage_by_model_from(start, members_view(map@.take(i as int))),
    {
        proof {
            assert(map@.take(i + 1) =~= map@.take(i as int).push(map@[i as int]));
            lemma_members_view_push(map@.take(i as int), map@[i as int]);
            let mv = members_view(map@.take(i + 1));
            assert(mv.drop_last() =~= members_view(map@.take(i as int)));
        }
        merge_into(acc, &map[i].key, &map[i].value);
    }
    assert(map@.take(n as int) =~= map@);
}

/// `usage_by_model` started from per-model usage `acc`.
pub open spec fn usage_by_model_from(acc: Seq<(Seq<char>, JsonView)>, pairs: Seq<(Seq<char>, JsonView)>) -> Seq<(Seq<char>, JsonView)>
    decreases pairs.len(),
{
    if pairs.len() == 0 {
        acc
    } else {
        merge_step(usage_by_model_from(acc, pairs.drop_last()), pairs.last().0, pairs.last().1)
    }
}

proof fn lemma_usage_by_model_from_append(acc: Seq<(Seq<char>, JsonView)>, a: Seq<(Seq<char>, JsonView)>, b: Seq<(Seq<char>, JsonView)>)
    ensures
        usage_by_model_from(usage_by_model_from(acc, a), b) == usage_by_model_from(acc, a + b),
    decreases b.len(),
{
    if b.len() == 0 {
        assert(a + b =~= a);
    } else {
        lemma_usage_by_model_from_append(acc, a, b.drop_last());
        assert((a + b).drop_last() =~= a + b.drop_last());
        assert((a + b).last() == b.last());
    }
}

proof fn lemma_usage_by_model_from_empty(pairs: Seq<(Seq<char>, JsonView)>)
    ensures
        usage_by_model_from(Seq::empty(), pairs) == usage_by_model(pairs),
    decreases pairs.len(),
{
    if pairs.len() > 0 {
        lemma_usage_by_model_from_empty(pairs.drop_last());
    }
}

/// Merges usage maps model by model, map after map: the per-model usage of all of them (as
/// the per-model usage of several session files is merged into one).
pub fn merge_usage_maps(maps: &Vec<Vec<JsonMember>>) -> (r: Vec<JsonMember>)
    ensures
        members_view(r@) == usage_by_model(maps_pairs(maps@)),
{
    let mut acc: Vec<JsonMember> = Vec::new();
    let n = maps.len();
    assert(maps@.take(0) =~= Seq::<Vec<JsonMember>>::empty());
    assert(members_view(acc@) == Seq::<(Seq<char>, JsonView)>::empty());
    for i in 0..n
        invariant
            n == maps@.len(),
            members_view(acc@) == usage_by_model_from(Seq::empty(), maps_pairs(maps@.take(i as int))),
    {
        proof {
            assert(maps@.take(i + 1).drop_last() =~= maps@.take(i as int));
            lemma_usage_by_model_from_append(Seq::empty(), maps_pairs(maps@.take(i as int)), members_view(maps@[i as int]@));
        }
        merge_map_into(&mut acc, &maps[i]);
    }
    assert(maps@.take(n as int) =~= maps@);
    proof {
        lemma_usage_by_model_from_empty(maps_pairs(maps@));
    }
    acc
}

/// The (model, usage) pairs of an analysis document as mathematical values.
pub open spec fn usage_pair_views(analysis: Json) -> Seq<(Seq<char>, JsonView)> {
    usage_pairs(analysis).map_values(|p: (Seq<char>, Json)| (p.0, json_view(p.1)))
}

/// The token usage of one analysis document, model by model: the `conversationUsage` of its
/// records merged per model, in record order (a model seen once keeps a copy of its usage).
pub fn extract_conversation_usage_from_analysis(analysis: &Json) -> (r: Vec<JsonMember>)
    ensures
        members_view(r@) == usage_by_model(usage_pair_views(*analysis)),
{
    let entries = conversation_usage_entries(analysis);
    let ghost pv = usage_pair_views(*analysis);
    let ghost ev = entries@.map_values(|e: UsageEntry| (e.model@, *e.usage));
    assert(ev == usage_pairs(*analysis));
    assert(pv.len() == entries@.len());
    let mut acc: Vec<JsonMember> = Vec::new();
    let n = entries.len();
    assert(pv.take(0) =~= Seq::<(Seq<char>, JsonView)>::empty());
    assert(members_view(acc@) == Seq::<(Seq<char>, JsonView)>::empty());
    for i in 0..n
        invariant
            n == entries@.len(),
            pv.len() == n,
            ev == entries@.map_values(|e: UsageEntry| (e.model@, *e.usage)),
            pv == ev.map_values(|p: (Seq<char>, Json)| (p.0, json_view(p.1))),
            members_view(acc@) == usage_by_model(pv.take(i as int)),
    {
        proof {
            assert(pv.take(i + 1).drop_last() =~= pv.take(i as int));
            assert(pv.take(i + 1).last() == pv[i as int]);
            assert(ev[i as int] == (entries@[i as int].model@, *entries@[i as int].usage));
        }
        merge_into(&mut acc, entries[i].model, entries[i].usage);
    }
    assert(pv.take(n as int) =~= pv);
    acc
}

/// A period of merged usage is what the files give for its key: their usage maps merged model
/// by model in file order, and each provider's active dates.
pub open spec fn merged_period_matches(
    g: PeriodUsage<Vec<JsonMember>>,
    files: Seq<FileUsage<Vec<JsonMember>>>,
    mode: GroupingMode,
) -> bool {
    &&& members_view(g.models@) == usage_by_model(maps_pairs(usages_in(files, mode, g.period_key@)))
    &&& g.provider_days.well_formed()
    &&& forall|p: Provider| p != Provider::Unknown ==> #[trigger] days_of(g.provider_days, p) == dates_in(files, mode, g.period_key@, p)
}

/// The periods are the period keys of the files, in ascending order, each holding the usage of
/// its files merged model by model.
pub open spec fn merged_periods_match(
    periods: Seq<PeriodUsage<Vec<JsonMember>>>,
    files: Seq<FileUsage<Vec<JsonMember>>>,
    mode: GroupingMode,
) -> bool {
    &&& forall|i: int, j: int| 0 <= i < j < periods.len() ==> seq_less(#[trigger] periods[i].period_key@, #[trigger] periods[j].period_key@)
    &&& forall|i: int| 0 <= i < periods.len() ==> period_keys(files, mode).contains(#[trigger] periods[i].period_key@)
    &&& forall|k: Seq<char>| #[trigger] period_keys(files, mode).contains(k) ==> exists|i: int| 0 <= i < periods.len() && #[trigger] periods[i].period_key@ == k
    &&& forall|i: int| 0 <= i < periods.len() ==> merged_period_matches(#[trigger] periods[i], files, mode)
}

/// Groups files' token usage (each file's usage by model) by period, and merges each period's
/// usage model by model, in file order.
pub fn group_usage_by_period(files: Vec<FileUsage<Vec<JsonMember>>>, mode: GroupingMode) -> (r: GroupedUsageData<Vec<JsonMember>>)
    ensures
        r.grouping_mode == mode,
        merged_periods_match(r.periods@, files@, mode),
{
    let ghost all = files@;
    let grouped = group_by_period(files, mode);
    let ghost gp = grouped.periods@;
    let mut rest = grouped.periods;
    let mut out: Vec<PeriodUsage<Vec<JsonMember>>> = Vec::new();
    let ghost mut i: int = 0;
    assert(gp.skip(0) =~= gp);
    while rest.len() > 0
        invariant
            0 <= i <= gp.len(),
            rest@ == gp.skip(i),
            out@.len() == i,
            forall|j: int| 0 <= j < i ==> (#[trigger] out@[j]).period_key@ == gp[j].period_key@
                && out@[j].provider_days == gp[j].provider_days
                && members_view(out@[j].models@) == usage_by_model(maps_pairs(gp[j].models@)),
        decreases rest@.len(),
    {
        let p = rest.remove(0);
        assert(p == gp[i]);
        assert(rest@ =~= gp.skip(i + 1));
        let PeriodUsage { period_key, models, provider_days } = p;
        let merged = merge_usage_maps(&models);
        out.push(PeriodUsage { period_key, models: merged, provider_days });
        proof {
            i = i + 1;
        }
    }
    assert(i == gp.len());
    proof {
        assert forall|j: int| 0 <= j < out@.len() implies merged_period_matches(#[trigger] out@[j], all, mode) by {
            assert(periods_match(gp, all, mode));
            assert(crate::usage::period_matches(gp[j], all, mode));
            assert forall|q: Provider| q != Provider::Unknown implies #[trigger] days_of(out@[j].provider_days, q) == dates_in(all, mode, out@[j].period_key@, q) by {
                assert(days_of(gp[j].provider_days, q) == dates_in(all, mode, gp[j].period_key@, q));
            }
        }
        assert forall|a: int, b: int| 0 <= a < b < out@.len() implies seq_less(#[trigger] out@[a].period_key@, #[trigger] out@[b].period_key@) by {
            assert(seq_less(gp[a].period_key@, gp[b].period_key@));
        }
        assert forall|a: int| 0 <= a < out@.len() implies period_keys(all, mode).contains(#[trigger] out@[a].period_key@) by {
            assert(period_keys(all, mode).contains(gp[a].period_key@));
        }
        assert forall|k: Seq<char>| #[trigger] period_keys(all, mode).contains(k) implies exists|a: int| 0 <= a < out@.len() && #[trigger] out@[a].period_key@ == k by {
            let a = choose|a: int| 0 <= a < gp.len() && #[trigger] gp[a].period_key@ == k;
            assert(out@[a].period_key@ == k);
        }
    }
    GroupedUsageData { periods: out, grouping_mode: mode }
}

} // verus!
