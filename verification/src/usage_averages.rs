//! The usage report by model: its rows sorted by model, and its daily token averages by provider.
use vstd::prelude::*;
use crate::averages::{
    DailyAverageRow, DailyAverages, ProviderAverage, ProviderStatistics, calculate_daily_averages, fold_fits, fold_stats,
    rows_of,
};
use crate::models::{Provider, ProviderActiveDays};
use crate::sorting::{distinct_names, sort_by_name, sorted_by_name};
use crate::usage_table::ModelTokens;

verus! {

impl DailyAverageRow for ModelTokens {
    fn model(&self) -> &str {
        self.model.as_str()
    }
}

/// Sorts the models of a usage report by name, each with its token counts.
pub fn build_usage_rows(models: &Vec<ModelTokens>) -> (r: Vec<ModelTokens>)
    requires
        distinct_names(models@),
    ensures
        r@.len() == models@.len(),
        sorted_by_name(r@),
        forall|x: ModelTokens| r@.contains(x) <==> models@.contains(x),
{
    let mut copies: Vec<ModelTokens> = Vec::with_capacity(models.len());
    let n = models.len();
    for i in 0..n
        invariant
            n == models@.len(),
            copies@ == models@.take(i as int),
    {
        copies.push(ModelTokens { model: models[i].model.clone(), counts: models[i].counts });
        assert(copies@ =~= models@.take(i + 1));
    }
    assert(copies@ =~= models@);
    sort_by_name(copies)
}

/// Token statistics of one provider: the total tokens of its rows and its active days.
#[derive(Debug, Clone)]
pub struct UsageProviderStats {
    pub total_tokens: i64,
    pub days_count: usize,
}

impl core::default::Default for UsageProviderStats {
    fn default() -> (r: Self)
        ensures
            r == <UsageProviderStats as ProviderStatistics<ModelTokens>>::initial(),
    {
        UsageProviderStats { total_tokens: 0, days_count: 0 }
    }
}

impl ProviderStatistics<ModelTokens> for UsageProviderStats {
    open spec fn initial() -> Self {
        UsageProviderStats { total_tokens: 0, days_count: 0 }
    }

    open spec fn accumulated(self, row: ModelTokens) -> Self {
        UsageProviderStats { total_tokens: (self.total_tokens + row.counts.total) as i64, days_count: self.days_count }
    }

    open spec fn with_days(self, days: usize) -> Self {
        UsageProviderStats { total_tokens: self.total_tokens, days_count: days }
    }

    open spec fn can_accumulate(self, row: ModelTokens) -> bool {
        i64::MIN <= self.total_tokens + row.counts.total <= i64::MAX
    }

    proof fn lemma_default_is_initial(r: Self) {
    }

    fn accumulate(&mut self, row: &ModelTokens, _provider: Provider) {
        self.total_tokens = self.total_tokens + row.counts.total;
    }

    fn set_days(&mut self, days: usize) {
        self.days_count = days;
    }
}

/// The sum of the rows' total tokens.
pub open spec fn token_sum(rows: Seq<ModelTokens>) -> int
    decreases rows.len(),
{
    if rows.len() == 0 {
        0
    } else {
        token_sum(rows.drop_last()) + rows.last().counts.total
    }
}

/// Adding the rows' total tokens in order stays within the range of `i64`.
pub open spec fn token_sums_fit(rows: Seq<ModelTokens>) -> bool {
    forall|n: int| 0 <= n <= rows.len() ==> i64::MIN <= #[trigger] token_sum(rows.take(n)) <= i64::MAX
}

proof fn lemma_fold_is_token_sum(days: usize, rows: Seq<ModelTokens>)
    requires
        token_sums_fit(rows),
    ensures
        fold_fits(UsageProviderStats::initial().with_days(days), rows),
        fold_stats(UsageProviderStats::initial().with_days(days), rows) == (UsageProviderStats {
            total_tokens: token_sum(rows) as i64,
            days_count: days,
        }),
    decreases rows.len(),
{
    assert(rows.take(rows.len() as int) =~= rows);
    assert(i64::MIN <= token_sum(rows.take(rows.len() as int)) <= i64::MAX);
    if rows.len() > 0 {
        let prev = rows.drop_last();
        assert forall|n: int| 0 <= n <= prev.len() implies i64::MIN <= #[trigger] token_sum(prev.take(n)) <= i64::MAX by {
            assert(prev.take(n) =~= rows.take(n));
            assert(i64::MIN <= token_sum(rows.take(n)) <= i64::MAX);
        }
        lemma_fold_is_token_sum(days, prev);
        assert(prev.take(prev.len() as int) =~= prev);
        assert(i64::MIN <= token_sum(prev.take(prev.len() as int)) <= i64::MAX);
    }
}

/// Daily averages with usage statistics.
pub type UsageDailyAverages = DailyAverages<ModelTokens, UsageProviderStats>;

/// Calculates the daily token averages of a usage report by provider: each provider's
/// statistics hold its active-day count and the total tokens of its rows (`providers[i]` is the
/// provider of `rows[i]`); the overall statistics hold the total day count and the total tokens
/// of all rows.
pub fn usage_daily_averages(rows: &[ModelTokens], providers: &[Provider], provider_days: &ProviderActiveDays) -> (r: UsageDailyAverages)
    requires
        rows@.len() == providers@.len(),
        token_sums_fit(rows_of(rows@, providers@, Provider::ClaudeCode)),
        token_sums_fit(rows_of(rows@, providers@, Provider::Codex)),
        token_sums_fit(rows_of(rows@, providers@, Provider::Copilot)),
        token_sums_fit(rows_of(rows@, providers@, Provider::Gemini)),
        token_sums_fit(rows@),
    ensures
        r.claude == (UsageProviderStats {
            total_tokens: token_sum(rows_of(rows@, providers@, Provider::ClaudeCode)) as i64,
            days_count: provider_days.claude,
        }),
        r.codex == (UsageProviderStats {
            total_tokens: token_sum(rows_of(rows@, providers@, Provider::Codex)) as i64,
            days_count: provider_days.codex,
        }),
        r.copilot == (UsageProviderStats {
            total_tokens: token_sum(rows_of(rows@, providers@, Provider::Copilot)) as i64,
            days_count: provider_days.copilot,
        }),
        r.gemini == (UsageProviderStats {
            total_tokens: token_sum(rows_of(rows@, providers@, Provider::Gemini)) as i64,
            days_count: provider_days.gemini,
        }),
        r.overall == (UsageProviderStats { total_tokens: token_sum(rows@) as i64, days_count: provider_days.total }),
{
    proof {
        lemma_fold_is_token_sum(provider_days.claude, rows_of(rows@, providers@, Provider::ClaudeCode));
        lemma_fold_is_token_sum(provider_days.codex, rows_of(rows@, providers@, Provider::Codex));
        lemma_fold_is_token_sum(provider_days.copilot, rows_of(rows@, providers@, Provider::Copilot));
        lemma_fold_is_token_sum(provider_days.gemini, rows_of(rows@, providers@, Provider::Gemini));
        lemma_fold_is_token_sum(provider_days.total, rows@);
    }
    calculate_daily_averages(rows, providers, provider_days)
}

/// The lines of the usage provider averages table: one per provider with active days, in the
/// order `ClaudeCode`, `Codex`, `Copilot`, `Gemini`, then the emphasized overall line when there
/// are overall active days or no other line.
pub open spec fn usage_provider_lines(a: UsageDailyAverages) -> Seq<(Provider, UsageProviderStats, bool)> {
    let c = if a.claude.days_count > 0 { seq![(Provider::ClaudeCode, a.claude, false)] } else { Seq::empty() };
    let x = if a.codex.days_count > 0 { seq![(Provider::Codex, a.codex, false)] } else { Seq::empty() };
    let p = if a.copilot.days_count > 0 { seq![(Provider::Copilot, a.copilot, false)] } else { Seq::empty() };
    let g = if a.gemini.days_count > 0 { seq![(Provider::Gemini, a.gemini, false)] } else { Seq::empty() };
    let four = c + x + p + g;
    if a.overall.days_count > 0 || four.len() == 0 {
        four.push((Provider::Unknown, a.overall, true))
    } else {
        four
    }
}

/// Builds the provider average lines of the usage report.
pub fn build_usage_provider_rows(averages: &UsageDailyAverages) -> (r: Vec<ProviderAverage<'_, UsageProviderStats>>)
    ensures
        r@.map_values(|l: ProviderAverage<'_, UsageProviderStats>| l.entry()) == usage_provider_lines(*averages),
{
    let mut rows: Vec<ProviderAverage<'_, UsageProviderStats>> = Vec::with_capacity(5);
    let ghost a = *averages;
    let ghost c = if a.claude.days_count > 0 { seq![(Provider::ClaudeCode, a.claude, false)] } else { Seq::empty() };
    let ghost x = if a.codex.days_count > 0 { seq![(Provider::Codex, a.codex, false)] } else { Seq::empty() };
    let ghost p = if a.copilot.days_count > 0 { seq![(Provider::Copilot, a.copilot, false)] } else { Seq::empty() };
    let ghost g = if a.gemini.days_count > 0 { seq![(Provider::Gemini, a.gemini, false)] } else { Seq::empty() };
    if averages.claude.days_count > 0 {
        rows.push(ProviderAverage::new(Provider::ClaudeCode, &averages.claude, false));
    }
    assert(rows@.map_values(|l: ProviderAverage<'_, UsageProviderStats>| l.entry()) =~= c);
    if averages.codex.days_count > 0 {
        rows.push(ProviderAverage::new(Provider::Codex, &averages.codex, false));
    }
    assert(rows@.map_values(|l: ProviderAverage<'_, UsageProviderStats>| l.entry()) =~= c + x);
    if averages.copilot.days_count > 0 {
        rows.push(ProviderAverage::new(Provider::Copilot, &averages.copilot, false));
    }
    assert(rows@.map_values(|l: ProviderAverage<'_, UsageProviderStats>| l.entry()) =~= c + x + p);
    if averages.gemini.days_count > 0 {
        rows.push(ProviderAverage::new(Provider::Gemini, &averages.gemini, false));
    }
    assert(rows@.map_values(|l: ProviderAverage<'_, UsageProviderStats>| l.entry()) =~= c + x + p + g);
    if averages.overall.days_count > 0 || rows.len() == 0 {
        rows.push(ProviderAverage::new_overall(&averages.overall));
    }
    assert(rows@.map_values(|l: ProviderAverage<'_, UsageProviderStats>| l.entry()) =~= usage_provider_lines(a));
    rows
}

/// Law: a provider averages table is never empty and has at most five lines; a provider has a
/// line exactly when it has active days, once, carrying that provider's own statistics; and the
/// overall line, with the overall statistics, comes last, exactly when there are overall active
/// days or no provider has any.
pub proof fn lemma_usage_provider_lines_shape(a: UsageDailyAverages)
    ensures
        1 <= usage_provider_lines(a).len() <= 5,
        (exists|i: int| 0 <= i < usage_provider_lines(a).len() && #[trigger] usage_provider_lines(a)[i].0 == Provider::ClaudeCode) <==> a.claude.days_count > 0,
        (exists|i: int| 0 <= i < usage_provider_lines(a).len() && #[trigger] usage_provider_lines(a)[i].0 == Provider::Codex) <==> a.codex.days_count > 0,
        (exists|i: int| 0 <= i < usage_provider_lines(a).len() && #[trigger] usage_provider_lines(a)[i].0 == Provider::Copilot) <==> a.copilot.days_count > 0,
        (exists|i: int| 0 <= i < usage_provider_lines(a).len() && #[trigger] usage_provider_lines(a)[i].0 == Provider::Gemini) <==> a.gemini.days_count > 0,
        (usage_provider_lines(a).last().0 == Provider::Unknown) <==> (a.overall.days_count > 0 || (a.claude.days_count == 0
            && a.codex.days_count == 0 && a.copilot.days_count == 0 && a.gemini.days_count == 0)),
        forall|i: int| 0 <= i < usage_provider_lines(a).len() ==> (#[trigger] usage_provider_lines(a)[i].2 <==> usage_provider_lines(a)[i].0 == Provider::Unknown),
        forall|i: int| 0 <= i < usage_provider_lines(a).len() ==> (#[trigger] usage_provider_lines(a)[i]).1 == a.stats_of(usage_provider_lines(a)[i].0),
        usage_provider_lines(a).len() == (if a.claude.days_count > 0 { 1int } else { 0int }) + (if a.codex.days_count > 0 { 1int } else { 0int })
            + (if a.copilot.days_count > 0 { 1int } else { 0int }) + (if a.gemini.days_count > 0 { 1int } else { 0int })
            + (if a.overall.days_count > 0 || (a.claude.days_count == 0 && a.codex.days_count == 0 && a.copilot.days_count == 0
            && a.gemini.days_count == 0) { 1int } else { 0int }),
{
    let l = usage_provider_lines(a);
    let c = if a.claude.days_count > 0 { seq![(Provider::ClaudeCode, a.claude, false)] } else { Seq::empty() };
    let x = if a.codex.days_count > 0 { seq![(Provider::Codex, a.codex, false)] } else { Seq::empty() };
    let p = if a.copilot.days_count > 0 { seq![(Provider::Copilot, a.copilot, false)] } else { Seq::empty() };
    let g = if a.gemini.days_count > 0 { seq![(Provider::Gemini, a.gemini, false)] } else { Seq::empty() };
    let four = c + x + p + g;
    assert(forall|i: int| 0 <= i < four.len() ==> #[trigger] four[i].0 != Provider::Unknown && !four[i].2);
    if a.claude.days_count > 0 {
        assert(l[0].0 == Provider::ClaudeCode);
    }
    if a.codex.days_count > 0 {
        assert(l[c.len() as int].0 == Provider::Codex);
    }
    if a.copilot.days_count > 0 {
        assert(l[(c.len() + x.len()) as int].0 == Provider::Copilot);
    }
    if a.gemini.days_count > 0 {
        assert(l[(c.len() + x.len() + p.len()) as int].0 == Provider::Gemini);
    }
    assert forall|i: int| 0 <= i < l.len() && #[trigger] l[i].0 == Provider::ClaudeCode implies a.claude.days_count > 0 by {
        if i < four.len() {
            assert(four[i] == l[i]);
        }
    }
    assert forall|i: int| 0 <= i < l.len() && #[trigger] l[i].0 == Provider::Codex implies a.codex.days_count > 0 by {
        if i < four.len() {
            assert(four[i] == l[i]);
        }
    }
    assert forall|i: int| 0 <= i < l.len() && #[trigger] l[i].0 == Provider::Copilot implies a.copilot.days_count > 0 by {
        if i < four.len() {
            assert(four[i] == l[i]);
        }
    }
    assert forall|i: int| 0 <= i < l.len() && #[trigger] l[i].0 == Provider::Gemini implies a.gemini.days_count > 0 by {
        if i < four.len() {
            assert(four[i] == l[i]);
        }
    }
    assert forall|i: int| 0 <= i < l.len() implies (#[trigger] l[i].2 <==> l[i].0 == Provider::Unknown) by {
        if i < four.len() {
            assert(four[i] == l[i]);
        }
    }
    assert forall|i: int| 0 <= i < l.len() implies (#[trigger] l[i]).1 == a.stats_of(l[i].0) by {
        if i < four.len() {
            assert(four[i] == l[i]);
            if i < c.len() {
                assert(four[i] == c[i]);
            } else if i < c.len() + x.len() {
                assert(four[i] == x[i - c.len()]);
            } else if i < c.len() + x.len() + p.len() {
                assert(four[i] == p[i - c.len() - x.len()]);
            } else {
                assert(four[i] == g[i - c.len() - x.len() - p.len()]);
            }
        }
    }
    if !(a.overall.days_count > 0 || four.len() == 0) {
        assert(l.last() == four[four.len() - 1]);
    }
}

} // verus!
