use vibe_coding_tracker::models::{GroupingMode, PeriodProviderDays, PeriodUsage, Provider};
use vibe_coding_tracker::usage::{group_by_period, FileUsage};
use vibe_coding_tracker::usage_table::{grouped_usage_rows, usage_totals, GroupedUsageRow, ModelTokens, TokenCounts};

fn counts(base: i64) -> TokenCounts {
    TokenCounts {
        input_tokens: base,
        output_tokens: base * 2,
        cache_read: base * 3,
        cache_creation: base * 4,
        total: base * 10,
    }
}

fn tokens(model: &str, base: i64) -> ModelTokens {
    ModelTokens { model: model.to_string(), counts: counts(base) }
}

fn no_days() -> PeriodProviderDays {
    PeriodProviderDays { claude: vec![], codex: vec![], copilot: vec![], gemini: vec![] }
}

fn period(key: &str, models: Vec<ModelTokens>) -> PeriodUsage<Vec<ModelTokens>> {
    PeriodUsage { period_key: key.to_string(), models, provider_days: no_days() }
}

fn line(model: &str, base: i64, show_period: bool) -> GroupedUsageRow {
    GroupedUsageRow { model: model.to_string(), counts: counts(base), show_period }
}

#[test]
fn grouped_rows_sort_models_and_show_each_period_once() {
    let periods = vec![
        period("2025-W10", vec![tokens("sonnet-4", 1), tokens("gpt-5", 2), tokens("gemini-2.5-pro", 3)]),
        period("2025-W11", vec![tokens("sonnet-4", 4)]),
        period("2025-W12", vec![]),
        period("2025-W13", vec![tokens("opus-4", 5), tokens("codex-mini", 6)]),
    ];
    let rows = grouped_usage_rows(&periods);
    assert_eq!(
        rows,
        vec![
            vec![line("gemini-2.5-pro", 3, true), line("gpt-5", 2, false), line("sonnet-4", 1, false)],
            vec![line("sonnet-4", 4, true)],
            vec![],
            vec![line("codex-mini", 6, true), line("opus-4", 5, false)],
        ]
    );
}

#[test]
fn repeated_period_key_is_not_shown_again() {
    let periods = vec![period("2025-03-10", vec![tokens("b", 1)]), period("2025-03-10", vec![tokens("a", 2)])];
    let rows = grouped_usage_rows(&periods);
    assert_eq!(rows, vec![vec![line("b", 1, true)], vec![line("a", 2, false)]]);
}

#[test]
fn grand_totals_add_rows_in_order() {
    let rows = vec![line("a", 1, true), line("b", 20, false), line("c", 300, false)];
    let t = usage_totals(&rows).unwrap();
    assert_eq!(t, counts(321));
    assert_eq!(usage_totals(&Vec::<GroupedUsageRow>::new()), Some(counts(0)));
}

#[test]
fn grand_totals_refuse_overflow() {
    let mut big = line("a", 0, true);
    big.counts.total = i64::MAX;
    let rows = vec![big, line("b", 1, false)];
    assert_eq!(usage_totals(&rows), None);
    let mut low = line("a", 0, true);
    low.counts.cache_read = i64::MIN;
    let mut minus = line("b", 0, false);
    minus.counts.cache_read = -1;
    assert_eq!(usage_totals(&vec![low, minus]), None);
}

#[test]
fn readme_usage_totals() {
    let row = |model: &str, input: i64, output: i64, cache_read: i64, cache_creation: i64| GroupedUsageRow {
        model: model.to_string(),
        counts: TokenCounts {
            input_tokens: input,
            output_tokens: output,
            cache_read,
            cache_creation,
            total: input + output + cache_read + cache_creation,
        },
        show_period: false,
    };
    let rows = vec![
        row("haiku-4-5-20251001", 5_567, 19_769, 4_627_938, 619_816),
        row("opus-4-6", 25_651, 179_066, 40_830_154, 2_572_258),
        row("gemini-3.1-pro-preview", 129_115, 10_339, 67_385, 0),
    ];
    let t = usage_totals(&rows).unwrap();
    assert_eq!(t.input_tokens, 160_333);
    assert_eq!(t.output_tokens, 209_174);
    assert_eq!(t.cache_read, 45_525_477);
    assert_eq!(t.cache_creation, 3_192_074);
    assert_eq!(t.total, 49_087_058);
    assert_eq!(vibe_coding_tracker::format::format_number(t.total), "49,087,058");
}

#[test]
fn grouped_periods_show_each_key_once() {
    let file = |date: &str, model: &str, base: i64| FileUsage {
        date: date.to_string(),
        usage: tokens(model, base),
        provider: Provider::Unknown,
    };
    let grouped = group_by_period(
        vec![
            file("2025-03-12", "b", 1),
            file("2025-03-10", "c", 2),
            file("2025-03-11", "a", 3),
            file("2025-03-12", "d", 4),
        ],
        GroupingMode::Weekly,
    );
    assert_eq!(grouped.periods.len(), 1);
    assert_eq!(grouped.periods[0].period_key, "2025-W11");
    let rows = grouped_usage_rows(&grouped.periods);
    let shown: Vec<bool> = rows[0].iter().map(|r| r.show_period).collect();
    assert_eq!(shown, vec![true, false, false, false]);
}
