//! Sorting by name.
use vstd::prelude::*;
use crate::text::{lemma_seq_less_irreflexive, lemma_seq_less_total, lemma_seq_less_transitive, seq_less, str_less};

verus! {

/// Things that have a name to be sorted by.
pub trait Named {
    /// The name's characters.
    spec fn name_view(&self) -> Seq<char>;

    /// The name.
    fn name(&self) -> (r: &str)
        ensures
            r@ == self.name_view(),
    ;
}

impl Named for String {
    open spec fn name_view(&self) -> Seq<char> {
        self@
    }

    fn name(&self) -> (r: &str) {
        self.as_str()
    }
}

/// Names strictly ascend, so none repeats.
pub open spec fn sorted_by_name<T: Named>(v: Seq<T>) -> bool {
    forall|i: int, j: int| 0 <= i < j < v.len() ==> seq_less(#[trigger] v[i].name_view(), #[trigger] v[j].name_view())
}

/// No two items share a name.
pub open spec fn distinct_names<T: Named>(v: Seq<T>) -> bool {
    forall|i: int, j: int| 0 <= i < v.len() && 0 <= j < v.len() && i != j ==> #[trigger] v[i].name_view() != #[trigger] v[j].name_view()
}

/// Sorts items by name in ascending order (by code point, as `str`'s `<` orders).
pub fn sort_by_name<T: Named>(rows: Vec<T>) -> (r: Vec<T>)
    requires
        distinct_names(rows@),
    ensures
        r@.len() == rows@.len(),
        forall|x: T| r@.contains(x) <==> rows@.contains(x),
        sorted_by_name(r@),
{
    let mut input = rows;
    let mut out: Vec<T> = Vec::new();
    while input.len() > 0
        invariant
            input@.len() + out@.len() == rows@.len(),
            forall|x: T| rows@.contains(x) <==> (input@.contains(x) || out@.contains(x)),
            distinct_names(input@),
            forall|a: int, b: int| 0 <= a < input@.len() && 0 <= b < out@.len() ==> #[trigger] input@[a].name_view() != #[trigger] out@[b].name_view(),
            sorted_by_name(out@),
        decreases input@.len(),
    {
        let ghost old_input = input@;
        let ghost old_out = out@;
        let x = input.pop().unwrap();
        assert(input@ =~= old_input.drop_last());
        assert(x == old_input.last());
        let mut p: usize = 0;
        while p < out.len() && str_less(out[p].name(), x.name())
            invariant
                out@ == old_out,
                p <= out@.len(),
                forall|q: int| 0 <= q < p ==> seq_less(#[trigger] out@[q].name_view(), x.name_view()),
            decreases out@.len() - p,
        {
            p = p + 1;
        }
        proof {
            assert forall|q: int| p <= q < old_out.len() implies seq_less(x.name_view(), #[trigger] old_out[q].name_view()) by {
                let b = old_input.len() - 1;
                assert(old_input[b].name_view() != old_out[p as int].name_view());
                lemma_seq_less_total(old_out[p as int].name_view(), x.name_view());
                if q > p {
                    lemma_seq_less_transitive(x.name_view(), old_out[p as int].name_view(), old_out[q].name_view());
                }
            }
        }
        out.insert(p, x);
        assert(out@ =~= old_out.insert(p as int, x));
        assert forall|i: int, j: int| 0 <= i < j < out@.len() implies seq_less(#[trigger] out@[i].name_view(), #[trigger] out@[j].name_view()) by {
            if j < p {
            } else if j == p {
            } else if i < p {
                lemma_seq_less_transitive(out@[i].name_view(), x.name_view(), out@[j].name_view());
            } else if i == p {
            } else {
                assert(out@[i] == old_out[i - 1] && out@[j] == old_out[j - 1]);
            }
        }
        assert forall|y: T| rows@.contains(y) <==> (input@.contains(y) || out@.contains(y)) by {
            if old_input.contains(y) {
                let a = choose|a: int| 0 <= a < old_input.len() && old_input[a] == y;
                if a == old_input.len() - 1 {
                    assert(out@[p as int] == y);
                } else {
                    assert(input@[a] == y);
                }
            }
            if old_out.contains(y) {
                let b = choose|b: int| 0 <= b < old_out.len() && old_out[b] == y;
                if b < p {
                    assert(out@[b] == y);
                } else {
                    assert(out@[b + 1] == y);
                }
            }
            if out@.contains(y) {
                let b = choose|b: int| 0 <= b < out@.len() && out@[b] == y;
                if b < p {
                    assert(old_out[b] == y);
                } else if b == p {
                    assert(old_input[old_input.len() - 1] == y);
                } else {
                    assert(old_out[b - 1] == y);
                }
            }
            if input@.contains(y) {
                let a = choose|a: int| 0 <= a < input@.len() && input@[a] == y;
                assert(old_input[a] == y);
            }
        }
        assert forall|a: int, b: int| 0 <= a < input@.len() && 0 <= b < out@.len() implies #[trigger] input@[a].name_view() != #[trigger] out@[b].name_view() by {
            assert(input@[a] == old_input[a]);
            if b < p {
                assert(out@[b] == old_out[b]);
            } else if b == p {
                assert(old_input[a].name_view() != old_input[old_input.len() - 1].name_view());
            } else {
                assert(out@[b] == old_out[b - 1]);
            }
        }
    }
    out
}

} // verus!
