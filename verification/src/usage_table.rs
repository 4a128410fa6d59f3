//! Layout of the grouped token usage table: model rows per period and the grand totals.
use vstd::prelude::*;
use crate::models::PeriodUsage;
use crate::sorting::{Named, distinct_names, sort_by_name};
use crate::models::GroupingMode;
use crate::text::{lemma_seq_less_irreflexive, seq_less, str_equal};
use crate::usage::{FileUsage, periods_match};

verus! {

/// Token counts of a model's usage.
#[derive(Debug, Clone, Copy, PartialEq, Eq, Structural)]
pub struct TokenCounts {
    pub input_tokens: i64,
    pub output_tokens: i64,
    pub cache_read: i64,
    pub cache_creation: i64,
    pub total: i64,
}

impl TokenCounts {
    /// The counts in field order.
    pub open spec fn fields(self) -> Seq<int> {
        seq![
            self.input_tokens as int,
            self.output_tokens as int,
            self.cache_read as int,
            self.cache_creation as int,
            self.total as int,
        ]
    }
}

/// A model and its token counts within one period.
#[derive(Debug)]
pub struct ModelTokens {
    pub model: String,
    pub counts: TokenCounts,
}

impl Named for ModelTokens {
    open spec fn name_view(&self) -> Seq<char> {
        self.model@
    }

    fn name(&self) -> (r: &str) {
        self.model.as_str()
    }
}

/// One model row of the grouped usage table; `show_period` tells whether the row shows the
/// period's key.
#[derive(Debug, PartialEq, Eq)]
pub struct GroupedUsageRow {
    pub model: String,
    pub counts: TokenCounts,
    pub show_period: bool,
}

/// Whether the period at `p` starts a new block: it is the first, or its key differs from the
/// key of the period before it.
pub open spec fn is_new_period<M>(periods: Seq<PeriodUsage<M>>, p: int) -> bool {
    p == 0 || periods[p].period_key@ != periods[p - 1].period_key@
}

/// Some model of `models` has the row's name and counts.
pub open spec fn row_has_model(models: Seq<ModelTokens>, row: GroupedUsageRow) -> bool {
    exists|j: int| 0 <= j < models.len() && #[trigger] models[j].model@ == row.model@ && models[j].counts == row.counts
}

/// Some row of `rows` has the model's name and counts.
pub open spec fn model_has_row(rows: Seq<GroupedUsageRow>, m: ModelTokens) -> bool {
    exists|i: int| 0 <= i < rows.len() && #[trigger] rows[i].model@ == m.model@ && rows[i].counts == m.counts
}

/// The rows of one period: its models sorted by name, each once with its counts, and only the
/// first row shows the period, when the period is new.
pub open spec fn period_rows_ok(models: Seq<ModelTokens>, new_period: bool, rows: Seq<GroupedUsageRow>) -> bool {
    &&& rows.len() == models.len()
    &&& forall|i: int, j: int| 0 <= i < j < rows.len() ==> seq_less(#[trigger] rows[i].model@, #[trigger] rows[j].model@)
    &&& forall|i: int| 0 <= i < rows.len() ==> row_has_model(models, #[trigger] rows[i])
    &&& forall|j: int| 0 <= j < models.len() ==> model_has_row(rows, #[trigger] models[j])
    &&& forall|i: int| 0 <= i < rows.len() ==> (#[trigger] rows[i]).show_period == (new_period && i == 0)
}

/// Sorts one period's models into table rows.
fn period_rows(models: &Vec<ModelTokens>, new_period: bool) -> (r: Vec<GroupedUsageRow>)
    requires
        distinct_names(models@),
    ensures
        period_rows_ok(models@, new_period, r@),
{
    let mut copies: Vec<ModelTokens> = Vec::with_capacity(models.len());
    let n = models.len();
    for i in 0..n
        invariant
            n == models@.len(),
            copies@ == models@.take(i as int),
    {
        copies.push(ModelTokens { model: models[i].model.clone(), counts: models[i].counts });
        assert(copies@ =~= models@.take(i + 1));
    }
    assert(copies@ =~= models@);
    let sorted = sort_by_name(copies);
    let mut rows: Vec<GroupedUsageRow> = Vec::with_capacity(n);
    for i in 0..n
        invariant
            n == models@.len(),
            sorted@.len() == n,
            rows@.len() == i,
            forall|k: int| 0 <= k < i ==> (#[trigger] rows@[k]).model@ == sorted@[k].model@
                && rows@[k].counts == sorted@[k].counts && rows@[k].show_period == (new_period && k == 0),
    {
        rows.push(GroupedUsageRow {
            model: sorted[i].model.clone(),
            counts: sorted[i].counts,
            show_period: new_period && i == 0,
        });
    }
    proof {
        assert forall|i: int, j: int| 0 <= i < j < rows@.len() implies seq_less(#[trigger] rows@[i].model@, #[trigger] rows@[j].model@) by {
            assert(seq_less(sorted@[i].name_view(), sorted@[j].name_view()));
        }
        assert forall|i: int| 0 <= i < rows@.len() implies row_has_model(models@, #[trigger] rows@[i]) by {
            assert(sorted@.contains(sorted@[i]));
            let j = choose|j: int| 0 <= j < models@.len() && models@[j] == sorted@[i];
            assert(models@[j].model@ == rows@[i].model@);
        }
        assert forall|j: int| 0 <= j < models@.len() implies model_has_row(rows@, #[trigger] models@[j]) by {
            assert(models@.contains(models@[j]));
            let i = choose|i: int| 0 <= i < sorted@.len() && sorted@[i] == models@[j];
            assert(rows@[i].model@ == models@[j].model@);
        }
    }
    rows
}

/// Lays out the model rows of the grouped usage table, one list per period: each period's
/// models sorted by name, the period shown only on its first row and only when its key differs
/// from the previous period's.
pub fn grouped_usage_rows(periods: &Vec<PeriodUsage<Vec<ModelTokens>>>) -> (r: Vec<Vec<GroupedUsageRow>>)
    requires
        forall|p: int| 0 <= p < periods@.len() ==> distinct_names(#[trigger] periods@[p].models@),
    ensures
        r@.len() == periods@.len(),
        forall|p: int| 0 <= p < periods@.len() ==> period_rows_ok(periods@[p].models@, is_new_period(periods@, p), #[trigger] r@[p]@),
{
    let mut out: Vec<Vec<GroupedUsageRow>> = Vec::with_capacity(periods.len());
    let n = periods.len();
    for p in 0..n
        invariant
            n == periods@.len(),
            forall|q: int| 0 <= q < periods@.len() ==> distinct_names(#[trigger] periods@[q].models@),
            out@.len() == p,
            forall|q: int| 0 <= q < p ==> period_rows_ok(periods@[q].models@, is_new_period(periods@, q), #[trigger] out@[q]@),
    {
        let new_period = p == 0 || !str_equal(periods[p].period_key.as_str(), periods[p - 1].period_key.as_str());
        let rows = period_rows(&periods[p].models, new_period);
        out.push(rows);
    }
    out
}

/// Rows that carry token counts.
pub trait TokenRow {
    spec fn counts_of(&self) -> TokenCounts;

    fn token_counts(&self) -> (r: TokenCounts)
        ensures
            r == self.counts_of(),
    ;
}

impl TokenRow for GroupedUsageRow {
    open spec fn counts_of(&self) -> TokenCounts {
        self.counts
    }

    fn token_counts(&self) -> (r: TokenCounts) {
        self.counts
    }
}

impl TokenRow for ModelTokens {
    open spec fn counts_of(&self) -> TokenCounts {
        self.counts
    }

    fn token_counts(&self) -> (r: TokenCounts) {
        self.counts
    }
}

/// Field-wise sums of the counts of rows.
pub open spec fn sum_tokens<T: TokenRow>(rows: Seq<T>) -> Seq<int>
    decreases rows.len(),
{
    if rows.len() == 0 {
        seq![0int, 0int, 0int, 0int, 0int]
    } else {
        let s = sum_tokens(rows.drop_last());
        let c = rows.last().counts_of().fields();
        Seq::new(5, |k: int| s[k] + c[k])
    }
}

/// Every sum fits in an `i64`.
pub open spec fn fits_i64(s: Seq<int>) -> bool {
    forall|k: int| 0 <= k < 5 ==> i64::MIN <= #[trigger] s[k] <= i64::MAX
}

/// The sums of every prefix of the rows fit in an `i64`, so that adding the rows in order never
/// overflows.
pub open spec fn running_sums_fit<T: TokenRow>(rows: Seq<T>) -> bool {
    forall|n: int| 0 <= n <= rows.len() ==> #[trigger] fits_i64(sum_tokens(rows.take(n)))
}

proof fn lemma_running_sums_push<T: TokenRow>(rows: Seq<T>, x: T)
    ensures
        running_sums_fit(rows.push(x)) <==> (running_sums_fit(rows) && fits_i64(sum_tokens(rows.push(x)))),
{
    let s = rows.push(x);
    assert(s.drop_last() =~= rows);
    assert(s.take(s.len() as int) =~= s);
    if running_sums_fit(s) {
        assert forall|n: int| 0 <= n <= rows.len() implies #[trigger] fits_i64(sum_tokens(rows.take(n))) by {
            assert(s.take(n) =~= rows.take(n));
            assert(fits_i64(sum_tokens(s.take(n))));
        }
    }
    if running_sums_fit(rows) && fits_i64(sum_tokens(s)) {
        assert forall|n: int| 0 <= n <= s.len() implies #[trigger] fits_i64(sum_tokens(s.take(n))) by {
            if n <= rows.len() {
                assert(s.take(n) =~= rows.take(n));
                assert(fits_i64(sum_tokens(rows.take(n))));
            }
        }
    }
}

/// The totals row of a usage table: the counts added up in row order, or `None`
/// when a running sum leaves the range of `i64`.
pub fn usage_totals<T: TokenRow>(rows: &Vec<T>) -> (r: Option<TokenCounts>)
    ensures
        r is Some <==> running_sums_fit(rows@),
        r matches Some(t) ==> t.fields() == sum_tokens(rows@),
{
    let mut t = TokenCounts { input_tokens: 0, output_tokens: 0, cache_read: 0, cache_creation: 0, total: 0 };
    let n = rows.len();
    proof {
        assert(rows@.take(0) =~= Seq::<T>::empty());
        assert forall|m: int| 0 <= m <= 0 implies #[trigger] fits_i64(sum_tokens(rows@.take(0).take(m))) by {
            assert(rows@.take(0).take(m) =~= Seq::<T>::empty());
        }
    }
    for i in 0..n
        invariant
            n == rows@.len(),
            t.fields() == sum_tokens(rows@.take(i as int)),
            running_sums_fit(rows@.take(i as int)),
    {
        let c = rows[i].token_counts();
        let ghost next = sum_tokens(rows@.take(i + 1));
        proof {
            assert(rows@.take(i + 1) =~= rows@.take(i as int).push(rows@[i as int]));
            assert(rows@.take(i + 1).drop_last() =~= rows@.take(i as int));
            lemma_running_sums_push(rows@.take(i as int), rows@[i as int]);
        }
        let input_tokens = t.input_tokens.checked_add(c.input_tokens);
        let output_tokens = t.output_tokens.checked_add(c.output_tokens);
        let cache_read = t.cache_read.checked_add(c.cache_read);
        let cache_creation = t.cache_creation.checked_add(c.cache_creation);
        let total = t.total.checked_add(c.total);
        match (input_tokens, output_tokens, cache_read, cache_creation, total) {
            (Some(a), Some(b), Some(d), Some(e), Some(f)) => {
                t = TokenCounts { input_tokens: a, output_tokens: b, cache_read: d, cache_creation: e, total: f };
                assert(t.fields() =~= next);
            },
            _ => {
                proof {
                    assert(!fits_i64(next)) by {
                        if input_tokens is None {
                            assert(!(i64::MIN <= next[0] <= i64::MAX));
                        } else if output_tokens is None {
                            assert(!(i64::MIN <= next[1] <= i64::MAX));
                        } else if cache_read is None {
                            assert(!(i64::MIN <= next[2] <= i64::MAX));
                        } else if cache_creation is None {
                            assert(!(i64::MIN <= next[3] <= i64::MAX));
                        } else {
                            assert(!(i64::MIN <= next[4] <= i64::MAX));
                        }
                    }
                    assert(rows@.take(i + 1).len() == i + 1);
                    assert(rows@.take(i + 1).take(i + 1) =~= rows@.take(i + 1));
                    assert(!running_sums_fit(rows@.take(i + 1)));
                    assert(rows@.take(i + 1) =~= rows@.take(n as int).take(i + 1));
                    assert(rows@.take(n as int) =~= rows@);
                }
                return None;
            },
        }
    }
    assert(rows@.take(n as int) =~= rows@);
    Some(t)
}

/// Law: when the periods come from grouping files by period (keys ascending, none repeated), the
/// grouped usage table shows each period's key exactly once, on the first row of the period.
pub proof fn lemma_grouped_table_shows_each_key_once(
    periods: Seq<PeriodUsage<Vec<ModelTokens>>>,
    files: Seq<FileUsage<ModelTokens>>,
    mode: GroupingMode,
    rows: Seq<Vec<GroupedUsageRow>>,
)
    requires
        periods_match(periods, files, mode),
        rows.len() == periods.len(),
        forall|p: int| 0 <= p < periods.len() ==> period_rows_ok(periods[p].models@, is_new_period(periods, p), #[trigger] rows[p]@),
    ensures
        forall|p: int, i: int| 0 <= p < rows.len() && 0 <= i < rows[p]@.len() ==> (#[trigger] rows[p]@[i]).show_period == (i == 0),
{
    assert forall|p: int, i: int| 0 <= p < rows.len() && 0 <= i < rows[p]@.len() implies (#[trigger] rows[p]@[i]).show_period == (i == 0) by {
        assert(period_rows_ok(periods[p].models@, is_new_period(periods, p), rows[p]@));
        if p > 0 {
            assert(seq_less(periods[p - 1].period_key@, periods[p].period_key@));
            if periods[p].period_key@ == periods[p - 1].period_key@ {
                lemma_seq_less_irreflexive(periods[p].period_key@);
            }
        }
    }
}

} // verus!
