//! Daily averages by provider: the generic part shared by the usage and analysis reports.
use vstd::prelude::*;
use crate::models::{Provider, ProviderActiveDays};

verus! {

/// Rows that name the model they belong to.
pub trait DailyAverageRow {
    fn model(&self) -> &str;
}

/// Per-provider statistics that rows can be added to.
///
/// `initial` is what `default` gives, `accumulated` what `accumulate` makes of the statistics
/// and a row, and `with_days` what `set_days` makes of them; `can_accumulate` says when adding
/// a row stays within the counters' range.
pub trait ProviderStatistics<Row: DailyAverageRow>: Sized + core::default::Default {
    spec fn initial() -> Self;

    spec fn accumulated(self, row: Row) -> Self;

    spec fn with_days(self, days: usize) -> Self;

    spec fn can_accumulate(self, row: Row) -> bool;

    /// What `default` gives is `initial()`.
    proof fn lemma_default_is_initial(r: Self)
        requires
            call_ensures(Self::default, (), r),
        ensures
            r == Self::initial(),
    ;

    /// Accumulates metrics from a row into provider statistics.
    fn accumulate(&mut self, row: &Row, provider: Provider)
        requires
            old(self).can_accumulate(*row),
        ensures
            *final(self) == old(self).accumulated(*row),
    ;

    /// Sets the number of active days for this provider.
    fn set_days(&mut self, days: usize)
        ensures
            *final(self) == old(self).with_days(days),
    ;
}

/// Statistics after adding `rows` in order.
pub open spec fn fold_stats<R: DailyAverageRow, S: ProviderStatistics<R>>(s: S, rows: Seq<R>) -> S
    decreases rows.len(),
{
    if rows.len() == 0 {
        s
    } else {
        fold_stats(s, rows.drop_last()).accumulated(rows.last())
    }
}

/// Every step of adding `rows` in order stays within range.
pub open spec fn fold_fits<R: DailyAverageRow, S: ProviderStatistics<R>>(s: S, rows: Seq<R>) -> bool
    decreases rows.len(),
{
    rows.len() == 0 || (fold_fits(s, rows.drop_last()) && fold_stats(s, rows.drop_last()).can_accumulate(rows.last()))
}

/// The rows whose provider is `p`, in order (`providers[i]` is the provider of `rows[i]`).
pub open spec fn rows_of<R>(rows: Seq<R>, providers: Seq<Provider>, p: Provider) -> Seq<R>
    decreases rows.len(),
{
    if rows.len() == 0 || providers.len() == 0 {
        Seq::empty()
    } else {
        let prev = rows_of(rows.drop_last(), providers.drop_last(), p);
        if providers.last() == p {
            prev.push(rows.last())
        } else {
            prev
        }
    }
}

proof fn lemma_fold_fits_prefix<R: DailyAverageRow, S: ProviderStatistics<R>>(s: S, rows: Seq<R>, j: int)
    requires
        fold_fits(s, rows),
        0 <= j <= rows.len(),
    ensures
        fold_fits(s, rows.take(j)),
    decreases rows.len(),
{
    if j == rows.len() {
        assert(rows.take(j) =~= rows);
    } else {
        lemma_fold_fits_prefix(s, rows.drop_last(), j);
        assert(rows.drop_last().take(j) =~= rows.take(j));
    }
}

/// The selected rows of a prefix are a prefix of the selected rows.
proof fn lemma_rows_of_prefix<R>(rows: Seq<R>, providers: Seq<Provider>, p: Provider, i: int)
    requires
        rows.len() == providers.len(),
        0 <= i <= rows.len(),
    ensures
        rows_of(rows.take(i), providers.take(i), p).len() <= rows_of(rows, providers, p).len(),
        rows_of(rows, providers, p).take(rows_of(rows.take(i), providers.take(i), p).len() as int)
            == rows_of(rows.take(i), providers.take(i), p),
    decreases rows.len(),
{
    if i == rows.len() {
        assert(rows.take(i) =~= rows);
        assert(providers.take(i) =~= providers);
        assert(rows_of(rows, providers, p).take(rows_of(rows, providers, p).len() as int) =~= rows_of(rows, providers, p));
    } else {
        lemma_rows_of_prefix(rows.drop_last(), providers.drop_last(), p, i);
        assert(rows.drop_last().take(i) =~= rows.take(i));
        assert(providers.drop_last().take(i) =~= providers.take(i));
        let short = rows_of(rows.take(i), providers.take(i), p);
        let mid = rows_of(rows.drop_last(), providers.drop_last(), p);
        if providers.last() == p {
            assert(mid.push(rows.last()).take(short.len() as int) =~= mid.take(short.len() as int));
        }
    }
}

/// Extending a prefix by one row extends its selected rows by that row when it belongs to `p`.
proof fn lemma_rows_of_step<R>(rows: Seq<R>, providers: Seq<Provider>, p: Provider, i: int)
    requires
        rows.len() == providers.len(),
        0 <= i < rows.len(),
    ensures
        rows_of(rows.take(i + 1), providers.take(i + 1), p) == (if providers[i] == p {
            rows_of(rows.take(i), providers.take(i), p).push(rows[i])
        } else {
            rows_of(rows.take(i), providers.take(i), p)
        }),
{
    assert(rows.take(i + 1).drop_last() =~= rows.take(i));
    assert(providers.take(i + 1).drop_last() =~= providers.take(i));
}

/// Daily averages organized by provider.
pub struct DailyAverages<R: DailyAverageRow, S: ProviderStatistics<R>> {
    pub claude: S,
    pub codex: S,
    pub copilot: S,
    pub gemini: S,
    pub overall: S,
    pub _phantom: core::marker::PhantomData<R>,
}

impl<R: DailyAverageRow, S: ProviderStatistics<R>> core::default::Default for DailyAverages<R, S> {
    /// Every provider's statistics start as `default` gives them.
    fn default() -> (r: Self)
        ensures
            r.claude == S::initial(),
            r.codex == S::initial(),
            r.copilot == S::initial(),
            r.gemini == S::initial(),
            r.overall == S::initial(),
    {
        let claude = S::default();
        let codex = S::default();
        let copilot = S::default();
        let gemini = S::default();
        let overall = S::default();
        proof {
            S::lemma_default_is_initial(claude);
            S::lemma_default_is_initial(codex);
            S::lemma_default_is_initial(copilot);
            S::lemma_default_is_initial(gemini);
            S::lemma_default_is_initial(overall);
        }
        DailyAverages { claude, codex, copilot, gemini, overall, _phantom: core::marker::PhantomData }
    }
}

impl<R: DailyAverageRow, S: ProviderStatistics<R>> DailyAverages<R, S> {
    /// The statistics kept for `provider` (`Unknown` stands for the overall ones).
    pub open spec fn stats_of(self, provider: Provider) -> S {
        match provider {
            Provider::ClaudeCode => self.claude,
            Provider::Codex => self.codex,
            Provider::Copilot => self.copilot,
            Provider::Gemini => self.gemini,
            Provider::Unknown => self.overall,
        }
    }

    /// Get stats for a specific provider.
    pub fn get_stats(&self, provider: Provider) -> (r: &S)
        ensures
            *r == self.stats_of(provider),
    {
        match provider {
            Provider::ClaudeCode => &self.claude,
            Provider::Codex => &self.codex,
            Provider::Copilot => &self.copilot,
            Provider::Gemini => &self.gemini,
            Provider::Unknown => &self.overall,
        }
    }

    /// Get mutable stats for a specific provider.
    pub fn get_stats_mut(&mut self, provider: Provider) -> (r: &mut S)
        ensures
            *r == old(self).stats_of(provider),
            final(self).stats_of(provider) == *final(r),
            forall|p: Provider| p != provider ==> #[trigger] final(self).stats_of(p) == old(self).stats_of(p),
    {
        match provider {
            Provider::ClaudeCode => &mut self.claude,
            Provider::Codex => &mut self.codex,
            Provider::Copilot => &mut self.copilot,
            Provider::Gemini => &mut self.gemini,
            Provider::Unknown => &mut self.overall,
        }
    }
}

/// Calculates daily averages grouped by AI provider: each provider's statistics get its
/// active-day count and the rows of that provider, the overall statistics get the total day
/// count and every row. `providers[i]` is the provider of `rows[i]`, which the caller supplies;
/// rows of an unknown provider count only towards the overall statistics.
pub fn calculate_daily_averages<R: DailyAverageRow, S: ProviderStatistics<R>>(
    rows: &[R],
    providers: &[Provider],
    provider_days: &ProviderActiveDays,
) -> (r: DailyAverages<R, S>)
    requires
        rows@.len() == providers@.len(),
        fold_fits(S::initial().with_days(provider_days.claude), rows_of(rows@, providers@, Provider::ClaudeCode)),
        fold_fits(S::initial().with_days(provider_days.codex), rows_of(rows@, providers@, Provider::Codex)),
        fold_fits(S::initial().with_days(provider_days.copilot), rows_of(rows@, providers@, Provider::Copilot)),
        fold_fits(S::initial().with_days(provider_days.gemini), rows_of(rows@, providers@, Provider::Gemini)),
        fold_fits(S::initial().with_days(provider_days.total), rows@),
    ensures
        r.claude == fold_stats(S::initial().with_days(provider_days.claude), rows_of(rows@, providers@, Provider::ClaudeCode)),
        r.codex == fold_stats(S::initial().with_days(provider_days.codex), rows_of(rows@, providers@, Provider::Codex)),
        r.copilot == fold_stats(S::initial().with_days(provider_days.copilot), rows_of(rows@, providers@, Provider::Copilot)),
        r.gemini == fold_stats(S::initial().with_days(provider_days.gemini), rows_of(rows@, providers@, Provider::Gemini)),
        r.overall == fold_stats(S::initial().with_days(provider_days.total), rows@),
{
    let mut claude = S::default();
    let mut codex = S::default();
    let mut copilot = S::default();
    let mut gemini = S::default();
    let mut overall = S::default();
    proof {
        S::lemma_default_is_initial(claude);
        S::lemma_default_is_initial(codex);
        S::lemma_default_is_initial(copilot);
        S::lemma_default_is_initial(gemini);
        S::lemma_default_is_initial(overall);
    }
    claude.set_days(provider_days.claude);
    codex.set_days(provider_days.codex);
    copilot.set_days(provider_days.copilot);
    gemini.set_days(provider_days.gemini);
    overall.set_days(provider_days.total);
    let ghost c0 = claude;
    let ghost x0 = codex;
    let ghost p0 = copilot;
    let ghost g0 = gemini;
    let ghost o0 = overall;
    let n = rows.len();
    assert(rows@.take(0) =~= Seq::<R>::empty());
    assert(providers@.take(0) =~= Seq::<Provider>::empty());
    for i in 0..n
        invariant
            n == rows@.len(),
            rows@.len() == providers@.len(),
            fold_fits(c0, rows_of(rows@, providers@, Provider::ClaudeCode)),
            fold_fits(x0, rows_of(rows@, providers@, Provider::Codex)),
            fold_fits(p0, rows_of(rows@, providers@, Provider::Copilot)),
            fold_fits(g0, rows_of(rows@, providers@, Provider::Gemini)),
            fold_fits(o0, rows@),
            claude == fold_stats(c0, rows_of(rows@.take(i as int), providers@.take(i as int), Provider::ClaudeCode)),
            codex == fold_stats(x0, rows_of(rows@.take(i as int), providers@.take(i as int), Provider::Codex)),
            copilot == fold_stats(p0, rows_of(rows@.take(i as int), providers@.take(i as int), Provider::Copilot)),
            gemini == fold_stats(g0, rows_of(rows@.take(i as int), providers@.take(i as int), Provider::Gemini)),
            overall == fold_stats(o0, rows@.take(i as int)),
    {
        let row = &rows[i];
        let provider = providers[i];
        proof {
            lemma_rows_of_step(rows@, providers@, provider, i as int);
            lemma_rows_of_prefix(rows@, providers@, provider, i + 1);
            let full = rows_of(rows@, providers@, provider);
            let pre = rows_of(rows@.take(i + 1), providers@.take(i + 1), provider);
            let s0 = match provider {
                Provider::ClaudeCode => c0,
                Provider::Codex => x0,
                Provider::Copilot => p0,
                Provider::Gemini => g0,
                Provider::Unknown => o0,
            };
            if provider != Provider::Unknown {
                lemma_fold_fits_prefix(s0, full, pre.len() as int);
                assert(pre.drop_last() =~= rows_of(rows@.take(i as int), providers@.take(i as int), provider));
            }
            lemma_fold_fits_prefix(o0, rows@, i + 1);
            assert(rows@.take(i + 1).drop_last() =~= rows@.take(i as int));
            lemma_rows_of_step(rows@, providers@, Provider::ClaudeCode, i as int);
            lemma_rows_of_step(rows@, providers@, Provider::Codex, i as int);
            lemma_rows_of_step(rows@, providers@, Provider::Copilot, i as int);
            lemma_rows_of_step(rows@, providers@, Provider::Gemini, i as int);
        }
        match provider {
            Provider::ClaudeCode => claude.accumulate(row, provider),
            Provider::Codex => codex.accumulate(row, provider),
            Provider::Copilot => copilot.accumulate(row, provider),
            Provider::Gemini => gemini.accumulate(row, provider),
            Provider::Unknown => {},
        }
        overall.accumulate(row, Provider::Unknown);
    }
    assert(rows@.take(n as int) =~= rows@);
    assert(providers@.take(n as int) =~= providers@);
    DailyAverages { claude, codex, copilot, gemini, overall, _phantom: core::marker::PhantomData }
}

/// Rows that can be displayed in tables.
pub trait DisplayRow {
    /// The model name of this row.
    fn model(&self) -> &str;

    /// This row as formatted cells.
    fn to_display_cells(&self) -> Vec<String>;

    /// A key that identifies the row across refreshes: its model name.
    fn row_key(&self) -> (r: String)
        ensures
            exists|m: &str| call_ensures(Self::model, (self,), m) && r@ == m@,
    {
        let m = self.model();
        let r = m.to_string();
        proof {
            vstd::string::to_string_from_display_ensures_for_str(m, r);
        }
        r
    }
}

/// Daily statistics that can be calculated per provider.
pub trait DailyStats: core::default::Default + Clone {
    /// The number of days with data for this provider.
    fn days_count(&self) -> usize;

    /// Every average metric of this provider, formatted.
    fn average_metrics(&self) -> Vec<String>;
}

/// How one provider's averages are displayed.
pub trait ProviderDisplay<'a, T: DailyStats> {
    fn label(&self) -> &'static str;

    fn icon(&self) -> &'static str;

    fn emphasize(&self) -> bool;

    fn stats(&self) -> &'a T;
}

/// One line of a provider averages table: whose statistics they are (`Unknown` for the line
/// that covers all providers), the statistics, and whether the line is emphasized.
pub struct ProviderAverage<'a, S> {
    pub provider: Provider,
    pub stats: &'a S,
    pub emphasize: bool,
}

impl<'a, S> ProviderAverage<'a, S> {
    /// A line for `provider`.
    pub fn new(provider: Provider, stats: &'a S, emphasize: bool) -> (r: Self)
        ensures
            r.provider == provider,
            *r.stats == *stats,
            r.emphasize == emphasize,
    {
        ProviderAverage { provider, stats, emphasize }
    }

    /// The emphasized line that covers all providers.
    pub fn new_overall(stats: &'a S) -> (r: Self)
        ensures
            r.provider == Provider::Unknown,
            *r.stats == *stats,
            r.emphasize,
    {
        ProviderAverage { provider: Provider::Unknown, stats, emphasize: true }
    }

    /// The line as a plain triple.
    pub open spec fn entry(self) -> (Provider, S, bool) {
        (self.provider, *self.stats, self.emphasize)
    }
}

} // verus!
