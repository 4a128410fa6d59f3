//! Daily averages of the analysis report: lines and tool calls per provider.
use vstd::prelude::*;
use crate::averages::{
    DailyAverageRow, DailyAverages, ProviderAverage, ProviderStatistics, calculate_daily_averages,
    fold_fits, fold_stats, rows_of,
};
use crate::batch::{AggregatedAnalysisRow, add_counts, zero_counts};
use crate::models::{Provider, ProviderActiveDays};

verus! {

/// Data structure for an analysis row.
#[derive(Debug)]
pub struct AnalysisRow {
    pub model: String,
    pub edit_lines: usize,
    pub read_lines: usize,
    pub write_lines: usize,
    pub bash_count: usize,
    pub edit_count: usize,
    pub read_count: usize,
    pub todo_write_count: usize,
    pub write_count: usize,
}

impl AnalysisRow {
    /// The counters of the row, in field order.
    pub open spec fn counts(self) -> Seq<int> {
        seq![
            self.edit_lines as int,
            self.read_lines as int,
            self.write_lines as int,
            self.bash_count as int,
            self.edit_count as int,
            self.read_count as int,
            self.todo_write_count as int,
            self.write_count as int,
        ]
    }
}

impl core::default::Default for AnalysisRow {
    fn default() -> (r: Self)
        ensures
            r.model@ == Seq::<char>::empty(),
            r.counts() == zero_counts(),
    {
        AnalysisRow {
            model: String::new(),
            edit_lines: 0,
            read_lines: 0,
            write_lines: 0,
            bash_count: 0,
            edit_count: 0,
            read_count: 0,
            todo_write_count: 0,
            write_count: 0,
        }
    }
}

impl DailyAverageRow for AnalysisRow {
    fn model(&self) -> &str {
        self.model.as_str()
    }
}

/// Provider-specific statistics for analysis.
#[derive(Debug, Clone)]
pub struct AnalysisProviderStats {
    pub total_edit_lines: usize,
    pub total_read_lines: usize,
    pub total_write_lines: usize,
    pub total_bash_count: usize,
    pub total_edit_count: usize,
    pub total_read_count: usize,
    pub total_todo_write_count: usize,
    pub total_write_count: usize,
    pub days_count: usize,
}

impl AnalysisProviderStats {
    /// The totals, in field order.
    pub open spec fn totals(self) -> Seq<int> {
        seq![
            self.total_edit_lines as int,
            self.total_read_lines as int,
            self.total_write_lines as int,
            self.total_bash_count as int,
            self.total_edit_count as int,
            self.total_read_count as int,
            self.total_todo_write_count as int,
            self.total_write_count as int,
        ]
    }
}

impl core::default::Default for AnalysisProviderStats {
    fn default() -> (r: Self)
        ensures
            r == <AnalysisProviderStats as ProviderStatistics<AnalysisRow>>::initial(),
    {
        AnalysisProviderStats {
            total_edit_lines: 0,
            total_read_lines: 0,
            total_write_lines: 0,
            total_bash_count: 0,
            total_edit_count: 0,
            total_read_count: 0,
            total_todo_write_count: 0,
            total_write_count: 0,
            days_count: 0,
        }
    }
}

impl ProviderStatistics<AnalysisRow> for AnalysisProviderStats {
    open spec fn initial() -> Self {
        AnalysisProviderStats {
            total_edit_lines: 0,
            total_read_lines: 0,
            total_write_lines: 0,
            total_bash_count: 0,
            total_edit_count: 0,
            total_read_count: 0,
            total_todo_write_count: 0,
            total_write_count: 0,
            days_count: 0,
        }
    }

    open spec fn accumulated(self, row: AnalysisRow) -> Self {
        AnalysisProviderStats {
            total_edit_lines: (self.total_edit_lines + row.edit_lines) as usize,
            total_read_lines: (self.total_read_lines + row.read_lines) as usize,
            total_write_lines: (self.total_write_lines + row.write_lines) as usize,
            total_bash_count: (self.total_bash_count + row.bash_count) as usize,
            total_edit_count: (self.total_edit_count + row.edit_count) as usize,
            total_read_count: (self.total_read_count + row.read_count) as usize,
            total_todo_write_count: (self.total_todo_write_count + row.todo_write_count) as usize,
            total_write_count: (self.total_write_count + row.write_count) as usize,
            days_count: self.days_count,
        }
    }

    open spec fn with_days(self, days: usize) -> Self {
        AnalysisProviderStats {
            total_edit_lines: self.total_edit_lines,
            total_read_lines: self.total_read_lines,
            total_write_lines: self.total_write_lines,
            total_bash_count: self.total_bash_count,
            total_edit_count: self.total_edit_count,
            total_read_count: self.total_read_count,
            total_todo_write_count: self.total_todo_write_count,
            total_write_count: self.total_write_count,
            days_count: days,
        }
    }

    open spec fn can_accumulate(self, row: AnalysisRow) -> bool {
        forall|i: int| 0 <= i < 8 ==> #[trigger] self.totals()[i] + row.counts()[i] <= usize::MAX
    }

    proof fn lemma_default_is_initial(r: Self) {
    }

    fn accumulate(&mut self, row: &AnalysisRow, _provider: Provider) {
        assert(self.totals()[0] + row.counts()[0] <= usize::MAX);
        assert(self.totals()[1] + row.counts()[1] <= usize::MAX);
        assert(self.totals()[2] + row.counts()[2] <= usize::MAX);
        assert(self.totals()[3] + row.counts()[3] <= usize::MAX);
        assert(self.totals()[4] + row.counts()[4] <= usize::MAX);
        assert(self.totals()[5] + row.counts()[5] <= usize::MAX);
        assert(self.totals()[6] + row.counts()[6] <= usize::MAX);
        assert(self.totals()[7] + row.counts()[7] <= usize::MAX);
        self.total_edit_lines = self.total_edit_lines + row.edit_lines;
        self.total_read_lines = self.total_read_lines + row.read_lines;
        self.total_write_lines = self.total_write_lines + row.write_lines;
        self.total_bash_count = self.total_bash_count + row.bash_count;
        self.total_edit_count = self.total_edit_count + row.edit_count;
        self.total_read_count = self.total_read_count + row.read_count;
        self.total_todo_write_count = self.total_todo_write_count + row.todo_write_count;
        self.total_write_count = self.total_write_count + row.write_count;
    }

    fn set_days(&mut self, days: usize) {
        self.days_count = days;
    }
}

/// Daily averages with analysis statistics.
pub type AnalysisDailyAverages = DailyAverages<AnalysisRow, AnalysisProviderStats>;

/// The counter-wise sum of the rows.
pub open spec fn sum_rows(rows: Seq<AnalysisRow>) -> Seq<int>
    decreases rows.len(),
{
    if rows.len() == 0 {
        zero_counts()
    } else {
        add_counts(sum_rows(rows.drop_last()), rows.last().counts())
    }
}

/// Every counter-wise sum fits in a `usize`.
pub open spec fn sums_fit(rows: Seq<AnalysisRow>) -> bool {
    forall|i: int| 0 <= i < 8 ==> #[trigger] sum_rows(rows)[i] <= usize::MAX
}

/// Statistics with `days` active days and the given totals.
pub open spec fn stats_with(days: usize, totals: Seq<int>) -> AnalysisProviderStats {
    AnalysisProviderStats {
        total_edit_lines: totals[0] as usize,
        total_read_lines: totals[1] as usize,
        total_write_lines: totals[2] as usize,
        total_bash_count: totals[3] as usize,
        total_edit_count: totals[4] as usize,
        total_read_count: totals[5] as usize,
        total_todo_write_count: totals[6] as usize,
        total_write_count: totals[7] as usize,
        days_count: days,
    }
}

proof fn lemma_sum_rows_shape(rows: Seq<AnalysisRow>)
    ensures
        sum_rows(rows).len() == 8,
        forall|i: int| 0 <= i < 8 ==> #[trigger] sum_rows(rows)[i] >= 0,
    decreases rows.len(),
{
    if rows.len() > 0 {
        lemma_sum_rows_shape(rows.drop_last());
    }
}

/// Adding rows in order gives their sums, as long as the sums fit.
proof fn lemma_fold_is_sum(days: usize, rows: Seq<AnalysisRow>)
    requires
        sums_fit(rows),
    ensures
        fold_fits(AnalysisProviderStats::initial().with_days(days), rows),
        fold_stats(AnalysisProviderStats::initial().with_days(days), rows) == stats_with(days, sum_rows(rows)),
    decreases rows.len(),
{
    let s0 = <AnalysisProviderStats as ProviderStatistics<AnalysisRow>>::initial().with_days(days);
    lemma_sum_rows_shape(rows);
    if rows.len() > 0 {
        lemma_sum_rows_shape(rows.drop_last());
        assert forall|i: int| 0 <= i < 8 implies #[trigger] sum_rows(rows.drop_last())[i] <= usize::MAX by {
            assert(sum_rows(rows)[i] == sum_rows(rows.drop_last())[i] + rows.last().counts()[i]);
        }
        lemma_fold_is_sum(days, rows.drop_last());
        let prev = fold_stats(s0, rows.drop_last());
        assert(prev.totals() =~= sum_rows(rows.drop_last()));
        assert forall|i: int| 0 <= i < 8 implies #[trigger] prev.totals()[i] + rows.last().counts()[i] <= usize::MAX by {
            assert(sum_rows(rows)[i] == sum_rows(rows.drop_last())[i] + rows.last().counts()[i]);
        }
    } else {
        assert(stats_with(days, sum_rows(rows)) == s0);
    }
}

/// The rows of one provider sum to no more than all rows.
proof fn lemma_selected_sum_le(rows: Seq<AnalysisRow>, providers: Seq<Provider>, p: Provider)
    requires
        rows.len() == providers.len(),
    ensures
        forall|i: int| 0 <= i < 8 ==> #[trigger] sum_rows(rows_of(rows, providers, p))[i] <= sum_rows(rows)[i],
    decreases rows.len(),
{
    if rows.len() > 0 {
        lemma_selected_sum_le(rows.drop_last(), providers.drop_last(), p);
        lemma_sum_rows_shape(rows.drop_last());
        let prev = rows_of(rows.drop_last(), providers.drop_last(), p);
        let sel = rows_of(rows, providers, p);
        if providers.last() == p {
            assert(prev.push(rows.last()).drop_last() =~= prev);
            assert(sel == prev.push(rows.last()));
        } else {
            assert(sel == prev);
        }
        assert forall|i: int| 0 <= i < 8 implies #[trigger] sum_rows(sel)[i] <= sum_rows(rows)[i] by {
            assert(sum_rows(prev)[i] <= sum_rows(rows.drop_last())[i]);
            assert(sum_rows(rows)[i] == sum_rows(rows.drop_last())[i] + rows.last().counts()[i]);
            assert(rows.last().counts()[i] >= 0);
            if providers.last() == p {
                assert(sum_rows(sel)[i] == sum_rows(prev)[i] + rows.last().counts()[i]);
            }
        }
    }
}

proof fn lemma_selected_fit(rows: Seq<AnalysisRow>, providers: Seq<Provider>, p: Provider)
    requires
        rows.len() == providers.len(),
        sums_fit(rows),
    ensures
        sums_fit(rows_of(rows, providers, p)),
{
    lemma_selected_sum_le(rows, providers, p);
    assert forall|i: int| 0 <= i < 8 implies #[trigger] sum_rows(rows_of(rows, providers, p))[i] <= usize::MAX by {
        assert(sum_rows(rows_of(rows, providers, p))[i] <= sum_rows(rows)[i]);
    }
}

/// Calculates daily averages for analysis data, grouped by provider: each provider's
/// statistics hold its active-day count and the sums of its rows (`providers[i]` is the
/// provider of `rows[i]`); the overall statistics hold the total day count and the sums of
/// all rows.
pub fn calculate_analysis_daily_averages(
    rows: &[AnalysisRow],
    providers: &[Provider],
    provider_days: &ProviderActiveDays,
) -> (r: AnalysisDailyAverages)
    requires
        rows@.len() == providers@.len(),
        sums_fit(rows@),
    ensures
        r.claude == stats_with(provider_days.claude, sum_rows(rows_of(rows@, providers@, Provider::ClaudeCode))),
        r.codex == stats_with(provider_days.codex, sum_rows(rows_of(rows@, providers@, Provider::Codex))),
        r.copilot == stats_with(provider_days.copilot, sum_rows(rows_of(rows@, providers@, Provider::Copilot))),
        r.gemini == stats_with(provider_days.gemini, sum_rows(rows_of(rows@, providers@, Provider::Gemini))),
        r.overall == stats_with(provider_days.total, sum_rows(rows@)),
{
    proof {
        lemma_selected_fit(rows@, providers@, Provider::ClaudeCode);
        lemma_selected_fit(rows@, providers@, Provider::Codex);
        lemma_selected_fit(rows@, providers@, Provider::Copilot);
        lemma_selected_fit(rows@, providers@, Provider::Gemini);
        lemma_fold_is_sum(provider_days.claude, rows_of(rows@, providers@, Provider::ClaudeCode));
        lemma_fold_is_sum(provider_days.codex, rows_of(rows@, providers@, Provider::Codex));
        lemma_fold_is_sum(provider_days.copilot, rows_of(rows@, providers@, Provider::Copilot));
        lemma_fold_is_sum(provider_days.gemini, rows_of(rows@, providers@, Provider::Gemini));
        lemma_fold_is_sum(provider_days.total, rows@);
    }
    calculate_daily_averages(rows, providers, provider_days)
}

/// The lines of a provider averages table: one per provider with active days, in the order
/// `ClaudeCode`, `Codex`, `Copilot`, `Gemini`, then the emphasized overall line when there are overall
/// active days or no other line.
pub open spec fn provider_lines(a: AnalysisDailyAverages) -> Seq<(Provider, AnalysisProviderStats, bool)> {
    let c = if a.claude.days_count > 0 { seq![(Provider::ClaudeCode, a.claude, false)] } else { Seq::empty() };
    let x = if a.codex.days_count > 0 { seq![(Provider::Codex, a.codex, false)] } else { Seq::empty() };
    let p = if a.copilot.days_count > 0 { seq![(Provider::Copilot, a.copilot, false)] } else { Seq::empty() };
    let g = if a.gemini.days_count > 0 { seq![(Provider::Gemini, a.gemini, false)] } else { Seq::empty() };
    let four = c + x + p + g;
    if a.overall.days_count > 0 || four.len() == 0 {
        four.push((Provider::Unknown, a.overall, true))
    } else {
        four
    }
}

/// Builds the provider average lines for display.
pub fn build_analysis_provider_rows(averages: &AnalysisDailyAverages) -> (r: Vec<ProviderAverage<'_, AnalysisProviderStats>>)
    ensures
        r@.map_values(|l: ProviderAverage<'_, AnalysisProviderStats>| l.entry()) == provider_lines(*averages),
{
    let mut rows: Vec<ProviderAverage<'_, AnalysisProviderStats>> = Vec::with_capacity(5);
    let ghost a = *averages;
    let ghost c = if a.claude.days_count > 0 { seq![(Provider::ClaudeCode, a.claude, false)] } else { Seq::empty() };
    let ghost x = if a.codex.days_count > 0 { seq![(Provider::Codex, a.codex, false)] } else { Seq::empty() };
    let ghost p = if a.copilot.days_count > 0 { seq![(Provider::Copilot, a.copilot, false)] } else { Seq::empty() };
    let ghost g = if a.gemini.days_count > 0 { seq![(Provider::Gemini, a.gemini, false)] } else { Seq::empty() };
    if averages.claude.days_count > 0 {
        rows.push(ProviderAverage::new(Provider::ClaudeCode, &averages.claude, false));
    }
    assert(rows@.map_values(|l: ProviderAverage<'_, AnalysisProviderStats>| l.entry()) =~= c);
    if averages.codex.days_count > 0 {
        rows.push(ProviderAverage::new(Provider::Codex, &averages.codex, false));
    }
    assert(rows@.map_values(|l: ProviderAverage<'_, AnalysisProviderStats>| l.entry()) =~= c + x);
    if averages.copilot.days_count > 0 {
        rows.push(ProviderAverage::new(Provider::Copilot, &averages.copilot, false));
    }
    assert(rows@.map_values(|l: ProviderAverage<'_, AnalysisProviderStats>| l.entry()) =~= c + x + p);
    if averages.gemini.days_count > 0 {
        rows.push(ProviderAverage::new(Provider::Gemini, &averages.gemini, false));
    }
    assert(rows@.map_values(|l: ProviderAverage<'_, AnalysisProviderStats>| l.entry()) =~= c + x + p + g);
    if averages.overall.days_count > 0 || rows.len() == 0 {
        rows.push(ProviderAverage::new_overall(&averages.overall));
    }
    assert(rows@.map_values(|l: ProviderAverage<'_, AnalysisProviderStats>| l.entry()) =~= provider_lines(a));
    rows
}

/// Copies aggregated rows into analysis rows, field by field and in order.
pub fn convert_to_analysis_rows(data: &[AggregatedAnalysisRow]) -> (r: Vec<AnalysisRow>)
    ensures
        r@.len() == data@.len(),
        forall|i: int| 0 <= i < data@.len() ==> (#[trigger] r@[i]).model@ == data@[i].model@ && r@[i].counts() == data@[i].counts(),
{
    let mut out: Vec<AnalysisRow> = Vec::with_capacity(data.len());
    let n = data.len();
    for i in 0..n
        invariant
            n == data@.len(),
            out@.len() == i,
            forall|j: int| 0 <= j < i ==> (#[trigger] out@[j]).model@ == data@[j].model@ && out@[j].counts() == data@[j].counts(),
    {
        let row = &data[i];
        out.push(AnalysisRow {
            model: row.model.clone(),
            edit_lines: row.edit_lines,
            read_lines: row.read_lines,
            write_lines: row.write_lines,
            bash_count: row.bash_count,
            edit_count: row.edit_count,
            read_count: row.read_count,
            todo_write_count: row.todo_write_count,
            write_count: row.write_count,
        });
    }
    out
}

/// The sums over a prefix of the rows are at most the sums over all of them.
proof fn lemma_sum_rows_prefix_le(rows: Seq<AnalysisRow>, i: int)
    requires
        0 <= i <= rows.len(),
    ensures
        forall|k: int| 0 <= k < 8 ==> #[trigger] sum_rows(rows.take(i))[k] <= sum_rows(rows)[k],
    decreases rows.len(),
{
    if i < rows.len() {
        lemma_sum_rows_prefix_le(rows.drop_last(), i);
        assert(rows.drop_last().take(i) =~= rows.take(i));
    } else {
        assert(rows.take(i) =~= rows);
    }
}

/// The totals line of the analysis tables: each counter summed over the rows, or `None` when a
/// sum does not fit in a `usize`.
pub fn analysis_totals(rows: &[AnalysisRow]) -> (r: Option<AnalysisRow>)
    ensures
        r is Some <==> sums_fit(rows@),
        r matches Some(t) ==> t.model@ == Seq::<char>::empty() && t.counts() == sum_rows(rows@),
{
    let mut t = AnalysisRow::default();
    let n = rows.len();
    assert(rows@.take(0) =~= Seq::<AnalysisRow>::empty());
    for i in 0..n
        invariant
            n == rows@.len(),
            t.model@ == Seq::<char>::empty(),
            t.counts() == sum_rows(rows@.take(i as int)),
    {
        let row = &rows[i];
        proof {
            assert(rows@.take(i + 1).drop_last() =~= rows@.take(i as int));
            lemma_sum_rows_prefix_le(rows@, i + 1);
        }
        let ghost next = sum_rows(rows@.take(i + 1));
        assert(next == add_counts(t.counts(), row.counts()));
        let edit_lines = match t.edit_lines.checked_add(row.edit_lines) {
            Some(v) => v,
            None => {
                assert(sum_rows(rows@)[0] >= next[0]);
                return None;
            },
        };
        let read_lines = match t.read_lines.checked_add(row.read_lines) {
            Some(v) => v,
            None => {
                assert(sum_rows(rows@)[1] >= next[1]);
                return None;
            },
        };
        let write_lines = match t.write_lines.checked_add(row.write_lines) {
            Some(v) => v,
            None => {
                assert(sum_rows(rows@)[2] >= next[2]);
                return None;
            },
        };
        let bash_count = match t.bash_count.checked_add(row.bash_count) {
            Some(v) => v,
            None => {
                assert(sum_rows(rows@)[3] >= next[3]);
                return None;
            },
        };
        let edit_count = match t.edit_count.checked_add(row.edit_count) {
            Some(v) => v,
            None => {
                assert(sum_rows(rows@)[4] >= next[4]);
                return None;
            },
        };
        let read_count = match t.read_count.checked_add(row.read_count) {
            Some(v) => v,
            None => {
                assert(sum_rows(rows@)[5] >= next[5]);
                return None;
            },
        };
        let todo_write_count = match t.todo_write_count.checked_add(row.todo_write_count) {
            Some(v) => v,
            None => {
                assert(sum_rows(rows@)[6] >= next[6]);
                return None;
            },
        };
        let write_count = match t.write_count.checked_add(row.write_count) {
            Some(v) => v,
            None => {
                assert(sum_rows(rows@)[7] >= next[7]);
                return None;
            },
        };
        t.edit_lines = edit_lines;
        t.read_lines = read_lines;
        t.write_lines = write_lines;
        t.bash_count = bash_count;
        t.edit_count = edit_count;
        t.read_count = read_count;
        t.todo_write_count = todo_write_count;
        t.write_count = write_count;
        assert(t.counts() =~= next);
    }
    assert(rows@.take(n as int) =~= rows@);
    assert forall|k: int| 0 <= k < 8 implies #[trigger] sum_rows(rows@)[k] <= usize::MAX by {
        assert(t.counts()[k] <= usize::MAX);
    }
    Some(t)
}

/// The two figures of the analysis summary line: all lines (edited, read and written) and all
/// tool calls, or `None` when one does not fit in a `usize`.
pub fn analysis_summary_counts(totals: &AnalysisRow) -> (r: Option<(usize, usize)>)
    ensures
        r is Some <==> (totals.counts()[0] + totals.counts()[1] + totals.counts()[2] <= usize::MAX
            && totals.counts()[3] + totals.counts()[4] + totals.counts()[5] + totals.counts()[6]
            + totals.counts()[7] <= usize::MAX),
        r matches Some(p) ==> p.0 == totals.counts()[0] + totals.counts()[1] + totals.counts()[2]
            && p.1 == totals.counts()[3] + totals.counts()[4] + totals.counts()[5] + totals.counts()[6]
            + totals.counts()[7],
{
    let lines = match totals.edit_lines.checked_add(totals.read_lines) {
        Some(v) => v.checked_add(totals.write_lines),
        None => None,
    };
    let mut tools = totals.bash_count.checked_add(totals.edit_count);
    if let Some(v) = tools {
        tools = v.checked_add(totals.read_count);
    }
    if let Some(v) = tools {
        tools = v.checked_add(totals.todo_write_count);
    }
    if let Some(v) = tools {
        tools = v.checked_add(totals.write_count);
    }
    match (lines, tools) {
        (Some(l), Some(w)) => Some((l, w)),
        _ => None,
    }
}

/// Law: the overall totals are the per-provider totals added together with the rows of no
/// known provider; every row counts once.
pub proof fn lemma_overall_is_sum_of_providers(rows: Seq<AnalysisRow>, providers: Seq<Provider>)
    requires
        rows.len() == providers.len(),
    ensures
        sum_rows(rows) == add_counts(
            add_counts(
                add_counts(
                    add_counts(
                        sum_rows(rows_of(rows, providers, Provider::ClaudeCode)),
                        sum_rows(rows_of(rows, providers, Provider::Codex)),
                    ),
                    sum_rows(rows_of(rows, providers, Provider::Copilot)),
                ),
                sum_rows(rows_of(rows, providers, Provider::Gemini)),
            ),
            sum_rows(rows_of(rows, providers, Provider::Unknown)),
        ),
    decreases rows.len(),
{
    let c = rows_of(rows, providers, Provider::ClaudeCode);
    let x = rows_of(rows, providers, Provider::Codex);
    let p = rows_of(rows, providers, Provider::Copilot);
    let g = rows_of(rows, providers, Provider::Gemini);
    let u = rows_of(rows, providers, Provider::Unknown);
    let total = add_counts(add_counts(add_counts(add_counts(sum_rows(c), sum_rows(x)), sum_rows(p)), sum_rows(g)), sum_rows(u));
    if rows.len() == 0 {
        assert(sum_rows(rows) =~= total);
    } else {
        let rows0 = rows.drop_last();
        let prov0 = providers.drop_last();
        lemma_overall_is_sum_of_providers(rows0, prov0);
        let last = rows.last();
        let c0 = rows_of(rows0, prov0, Provider::ClaudeCode);
        let x0 = rows_of(rows0, prov0, Provider::Codex);
        let p0 = rows_of(rows0, prov0, Provider::Copilot);
        let g0 = rows_of(rows0, prov0, Provider::Gemini);
        let u0 = rows_of(rows0, prov0, Provider::Unknown);
        assert(c0.push(last).drop_last() =~= c0);
        assert(x0.push(last).drop_last() =~= x0);
        assert(p0.push(last).drop_last() =~= p0);
        assert(g0.push(last).drop_last() =~= g0);
        assert(u0.push(last).drop_last() =~= u0);
        assert(sum_rows(rows) =~= total);
    }
}

/// Law: a provider averages table is never empty and has at most five lines; a provider has a
/// line exactly when it has active days, once, carrying that provider's own statistics; and the
/// overall line, with the overall statistics, comes last, exactly when there are overall active
/// days or no provider has any.
pub proof fn lemma_provider_lines_shape(a: AnalysisDailyAverages)
    ensures
        1 <= provider_lines(a).len() <= 5,
        (exists|i: int| 0 <= i < provider_lines(a).len() && #[trigger] provider_lines(a)[i].0 == Provider::ClaudeCode) <==> a.claude.days_count > 0,
        (exists|i: int| 0 <= i < provider_lines(a).len() && #[trigger] provider_lines(a)[i].0 == Provider::Codex) <==> a.codex.days_count > 0,
        (exists|i: int| 0 <= i < provider_lines(a).len() && #[trigger] provider_lines(a)[i].0 == Provider::Copilot) <==> a.copilot.days_count > 0,
        (exists|i: int| 0 <= i < provider_lines(a).len() && #[trigger] provider_lines(a)[i].0 == Provider::Gemini) <==> a.gemini.days_count > 0,
        (provider_lines(a).last().0 == Provider::Unknown) <==> (a.overall.days_count > 0 || (a.claude.days_count == 0
            && a.codex.days_count == 0 && a.copilot.days_count == 0 && a.gemini.days_count == 0)),
        forall|i: int| 0 <= i < provider_lines(a).len() ==> (#[trigger] provider_lines(a)[i].2 <==> provider_lines(a)[i].0 == Provider::Unknown),
        forall|i: int| 0 <= i < provider_lines(a).len() ==> (#[trigger] provider_lines(a)[i]).1 == a.stats_of(provider_lines(a)[i].0),
        provider_lines(a).len() == (if a.claude.days_count > 0 { 1int } else { 0int }) + (if a.codex.days_count > 0 { 1int } else { 0int })
            + (if a.copilot.days_count > 0 { 1int } else { 0int }) + (if a.gemini.days_count > 0 { 1int } else { 0int })
            + (if a.overall.days_count > 0 || (a.claude.days_count == 0 && a.codex.days_count == 0 && a.copilot.days_count == 0
            && a.gemini.days_count == 0) { 1int } else { 0int }),
{
    let l = provider_lines(a);
    let c = if a.claude.days_count > 0 { seq![(Provider::ClaudeCode, a.claude, false)] } else { Seq::empty() };
    let x = if a.codex.days_count > 0 { seq![(Provider::Codex, a.codex, false)] } else { Seq::empty() };
    let p = if a.copilot.days_count > 0 { seq![(Provider::Copilot, a.copilot, false)] } else { Seq::empty() };
    let g = if a.gemini.days_count > 0 { seq![(Provider::Gemini, a.gemini, false)] } else { Seq::empty() };
    let four = c + x + p + g;
    assert(forall|i: int| 0 <= i < four.len() ==> #[trigger] four[i].0 != Provider::Unknown && !four[i].2);
    if a.claude.days_count > 0 {
        assert(l[0].0 == Provider::ClaudeCode);
    }
    if a.codex.days_count > 0 {
        assert(l[c.len() as int].0 == Provider::Codex);
    }
    if a.copilot.days_count > 0 {
        assert(l[(c.len() + x.len()) as int].0 == Provider::Copilot);
    }
    if a.gemini.days_count > 0 {
        assert(l[(c.len() + x.len() + p.len()) as int].0 == Provider::Gemini);
    }
    assert forall|i: int| 0 <= i < l.len() && #[trigger] l[i].0 == Provider::ClaudeCode implies a.claude.days_count > 0 by {
        if i < four.len() {
            assert(four[i] == l[i]);
        }
    }
    assert forall|i: int| 0 <= i < l.len() && #[trigger] l[i].0 == Provider::Codex implies a.codex.days_count > 0 by {
        if i < four.len() {
            assert(four[i] == l[i]);
        }
    }
    assert forall|i: int| 0 <= i < l.len() && #[trigger] l[i].0 == Provider::Copilot implies a.copilot.days_count > 0 by {
        if i < four.len() {
            assert(four[i] == l[i]);
        }
    }
    assert forall|i: int| 0 <= i < l.len() && #[trigger] l[i].0 == Provider::Gemini implies a.gemini.days_count > 0 by {
        if i < four.len() {
            assert(four[i] == l[i]);
        }
    }
    assert forall|i: int| 0 <= i < l.len() implies (#[trigger] l[i].2 <==> l[i].0 == Provider::Unknown) by {
        if i < four.len() {
            assert(four[i] == l[i]);
        }
    }
    assert forall|i: int| 0 <= i < l.len() implies (#[trigger] l[i]).1 == a.stats_of(l[i].0) by {
        if i < four.len() {
            assert(four[i] == l[i]);
            if i < c.len() {
                assert(four[i] == c[i]);
            } else if i < c.len() + x.len() {
                assert(four[i] == x[i - c.len()]);
            } else if i < c.len() + x.len() + p.len() {
                assert(four[i] == p[i - c.len() - x.len()]);
            } else {
                assert(four[i] == g[i - c.len() - x.len() - p.len()]);
            }
        }
    }
    if !(a.overall.days_count > 0 || four.len() == 0) {
        assert(l.last() == four[four.len() - 1]);
    }
}

} // verus!
