//! Sets of dates (or other names) held as vectors without repeats.
use vstd::prelude::*;

verus! {

/// The characters of each string.
pub open spec fn views(v: Seq<String>) -> Seq<Seq<char>> {
    v.map_values(|s: String| s@)
}

/// The set of strings that `v` holds, by their characters.
pub open spec fn view_set(v: Seq<String>) -> Set<Seq<char>> {
    views(v).to_set()
}

/// No string occurs twice in `v`.
pub open spec fn distinct(v: Seq<String>) -> bool {
    views(v).no_duplicates()
}

/// The number of different strings in `v` is its length when none repeats.
pub proof fn lemma_distinct_len(v: Seq<String>)
    requires
        distinct(v),
    ensures
        view_set(v).len() == v.len(),
        view_set(v).finite(),
{
    views(v).unique_seq_to_set();
}

/// Whether `v` holds a string equal to `s`.
pub fn contains_string(v: &Vec<String>, s: &str) -> (r: bool)
    ensures
        r == view_set(v@).contains(s@),
{
    let n = v.len();
    for i in 0..n
        invariant
            n == v@.len(),
            forall|j: int| 0 <= j < i ==> v@[j]@ != s@,
    {
        if crate::text::str_equal(v[i].as_str(), s) {
            assert(views(v@)[i as int] == s@);
            return true;
        }
    }
    assert forall|x: Seq<char>| view_set(v@).contains(x) implies x != s@ by {
        let j = choose|j: int| 0 <= j < views(v@).len() && views(v@)[j] == x;
        assert(v@[j]@ == x);
    }
    false
}

/// Adds `s` to the set `v`, unless it holds it already.
pub fn insert_string(v: &mut Vec<String>, s: &String)
    requires
        distinct(old(v)@),
    ensures
        distinct(final(v)@),
        view_set(final(v)@) == view_set(old(v)@).insert(s@),
{
    if !contains_string(v, s.as_str()) {
        let ghost before = v@;
        v.push(s.clone());
        assert(views(v@) =~= views(before).push(s@));
        assert(view_set(v@) =~= view_set(before).insert(s@)) by {
            assert forall|x: Seq<char>| view_set(v@).contains(x) <==> view_set(before).insert(s@).contains(x) by {
                if view_set(before).contains(x) {
                    let j = choose|j: int| 0 <= j < views(before).len() && views(before)[j] == x;
                    assert(views(v@)[j] == x);
                }
                if x == s@ {
                    assert(views(v@)[before.len() as int] == x);
                }
                if view_set(v@).contains(x) {
                    let j = choose|j: int| 0 <= j < views(v@).len() && views(v@)[j] == x;
                    if j < before.len() {
                        assert(views(before)[j] == x);
                    }
                }
            }
        }
        assert forall|a: int, b: int| 0 <= a < b < views(v@).len() implies views(v@)[a] != views(v@)[b] by {
            if b == before.len() {
                assert(view_set(before).contains(views(before)[a]));
            }
        }
    } else {
        assert(view_set(v@) =~= view_set(v@).insert(s@));
    }
}

/// Adds every string of `items` to the set `v`.
pub fn insert_all(v: &mut Vec<String>, items: &Vec<String>)
    requires
        distinct(old(v)@),
    ensures
        distinct(final(v)@),
        view_set(final(v)@) == view_set(old(v)@).union(view_set(items@)),
{
    let ghost start = view_set(v@);
    let n = items.len();
    for i in 0..n
        invariant
            n == items@.len(),
            distinct(v@),
            view_set(v@) == start.union(view_set(items@.take(i as int))),
    {
        insert_string(v, &items[i]);
        assert(view_set(items@.take(i + 1)) =~= view_set(items@.take(i as int)).insert(items@[i as int]@)) by {
            assert(views(items@.take(i + 1)) =~= views(items@.take(i as int)).push(items@[i as int]@));
            views(items@.take(i as int)).lemma_push_to_set_commute(items@[i as int]@);
        }
        assert(view_set(v@) =~= start.union(view_set(items@.take(i + 1))));
    }
    assert(items@.take(n as int) =~= items@);
}

} // verus!
