use vibe_coding_tracker::analysis_averages::{
    analysis_summary_counts, analysis_totals, build_analysis_provider_rows, calculate_analysis_daily_averages,
    convert_to_analysis_rows, AnalysisProviderStats, AnalysisRow,
};
use vibe_coding_tracker::averages::{DailyAverages, ProviderStatistics};
use vibe_coding_tracker::batch::AggregatedAnalysisRow;
use vibe_coding_tracker::models::{Provider, ProviderActiveDays};

fn row(model: &str, base: usize) -> AnalysisRow {
    AnalysisRow {
        model: model.to_string(),
        edit_lines: base,
        read_lines: base + 1,
        write_lines: base + 2,
        bash_count: base + 3,
        edit_count: base + 4,
        read_count: base + 5,
        todo_write_count: base + 6,
        write_count: base + 7,
    }
}

fn days(claude: usize, codex: usize, copilot: usize, gemini: usize, total: usize) -> ProviderActiveDays {
    ProviderActiveDays { claude, codex, copilot, gemini, total }
}

#[test]
fn averages_group_rows_by_provider() {
    let rows = vec![row("opus-4", 10), row("gpt-5", 100), row("haiku-4", 1), row("mystery", 1000)];
    let providers = vec![Provider::ClaudeCode, Provider::Codex, Provider::ClaudeCode, Provider::Unknown];
    let a = calculate_analysis_daily_averages(&rows, &providers, &days(3, 1, 0, 0, 3));
    assert_eq!(a.claude.total_edit_lines, 11);
    assert_eq!(a.claude.total_write_count, 17 + 8);
    assert_eq!(a.claude.days_count, 3);
    assert_eq!(a.codex.total_read_lines, 101);
    assert_eq!(a.copilot.total_edit_lines, 0);
    assert_eq!(a.gemini.total_bash_count, 0);
    assert_eq!(a.overall.total_edit_lines, 1111);
    assert_eq!(a.overall.days_count, 3);
    // every row counts once: overall = providers + unknown rows
    assert_eq!(
        a.overall.total_todo_write_count,
        a.claude.total_todo_write_count + a.codex.total_todo_write_count + 1006
    );
}

#[test]
fn provider_rows_follow_active_days() {
    let rows = vec![row("opus-4", 1), row("gemini-pro", 2)];
    let providers = vec![Provider::ClaudeCode, Provider::Gemini];
    let a = calculate_analysis_daily_averages(&rows, &providers, &days(2, 0, 0, 1, 2));
    let lines = build_analysis_provider_rows(&a);
    let kinds: Vec<(Provider, bool)> = lines.iter().map(|l| (l.provider, l.emphasize)).collect();
    assert_eq!(kinds, vec![(Provider::ClaudeCode, false), (Provider::Gemini, false), (Provider::Unknown, true)]);
    assert_eq!(lines[1].stats.total_edit_lines, 2);
}

#[test]
fn provider_rows_never_empty() {
    let a = calculate_analysis_daily_averages(&[], &[], &days(0, 0, 0, 0, 0));
    let lines = build_analysis_provider_rows(&a);
    assert_eq!(lines.len(), 1);
    assert_eq!(lines[0].provider, Provider::Unknown);
    assert!(lines[0].emphasize);
    assert_eq!(lines[0].stats.days_count, 0);
}

#[test]
fn provider_rows_without_overall_days() {
    // a provider with days but no overall days: the overall line is left out
    let a = calculate_analysis_daily_averages(&[], &[], &days(0, 4, 0, 0, 0));
    let lines = build_analysis_provider_rows(&a);
    assert_eq!(lines.len(), 1);
    assert_eq!(lines[0].provider, Provider::Codex);
}

#[test]
fn stats_accumulate_and_set_days() {
    let mut s = AnalysisProviderStats::default();
    s.set_days(5);
    s.accumulate(&row("m", 1), Provider::Unknown);
    s.accumulate(&row("m", 2), Provider::Unknown);
    assert_eq!(s.total_edit_lines, 3);
    assert_eq!(s.total_write_count, 8 + 9);
    assert_eq!(s.days_count, 5);
}

#[test]
fn stats_lookup_by_provider() {
    let rows = vec![row("a", 1), row("b", 2)];
    let providers = vec![Provider::Copilot, Provider::Codex];
    let mut a = calculate_analysis_daily_averages(&rows, &providers, &days(0, 1, 1, 0, 1));
    assert_eq!(a.get_stats(Provider::Copilot).total_edit_lines, 1);
    assert_eq!(a.get_stats(Provider::Unknown).total_edit_lines, 3);
    a.get_stats_mut(Provider::Gemini).set_days(9);
    assert_eq!(a.gemini.days_count, 9);
    assert_eq!(a.codex.days_count, 1);
    let fresh: DailyAverages<AnalysisRow, AnalysisProviderStats> = DailyAverages::default();
    assert_eq!(fresh.overall.total_read_lines, 0);
    assert_eq!(fresh.claude.days_count, 0);
}

#[test]
fn conversion_keeps_fields() {
    let data = vec![AggregatedAnalysisRow {
        model: "sonnet-4".to_string(),
        edit_lines: 50,
        read_lines: 100,
        write_lines: 25,
        bash_count: 5,
        edit_count: 10,
        read_count: 15,
        todo_write_count: 2,
        write_count: 3,
    }];
    let rows = convert_to_analysis_rows(&data);
    assert_eq!(rows.len(), 1);
    assert_eq!(rows[0].model, "sonnet-4");
    assert_eq!(
        (rows[0].edit_lines, rows[0].read_lines, rows[0].write_lines, rows[0].todo_write_count, rows[0].write_count),
        (50, 100, 25, 2, 3)
    );
    let empty = AnalysisRow::default();
    assert_eq!(empty.model, "");
    assert_eq!(empty.bash_count, 0);
}

fn row_counts(r: &AnalysisRow) -> [usize; 8] {
    [
        r.edit_lines,
        r.read_lines,
        r.write_lines,
        r.bash_count,
        r.edit_count,
        r.read_count,
        r.todo_write_count,
        r.write_count,
    ]
}

#[test]
fn totals_add_every_counter() {
    let rows = vec![row("opus-4", 10), row("gpt-5", 100), row("haiku-4", 1)];
    let t = analysis_totals(&rows).unwrap();
    assert_eq!(t.model, "");
    assert_eq!(row_counts(&t), [111, 114, 117, 120, 123, 126, 129, 132]);
    assert_eq!(analysis_summary_counts(&t), Some((111 + 114 + 117, 120 + 123 + 126 + 129 + 132)));
}

#[test]
fn totals_of_no_rows_are_zero() {
    let t = analysis_totals(&[]).unwrap();
    assert_eq!(row_counts(&t), [0; 8]);
    assert_eq!(analysis_summary_counts(&t), Some((0, 0)));
}

#[test]
fn totals_refuse_overflow() {
    let mut big = row("opus-4", 0);
    big.write_count = usize::MAX;
    let rows = vec![big, row("gpt-5", 1)];
    assert!(analysis_totals(&rows).is_none());
    let mut t = row("", 0);
    t.edit_lines = usize::MAX;
    t.read_lines = 1;
    assert_eq!(analysis_summary_counts(&t), None);
    let mut t = row("", 0);
    t.todo_write_count = usize::MAX;
    assert_eq!(analysis_summary_counts(&t), None);
}

#[test]
fn readme_analysis_totals() {
    let r = |model: &str, c: [usize; 8]| AnalysisRow {
        model: model.to_string(),
        edit_lines: c[0],
        read_lines: c[1],
        write_lines: c[2],
        bash_count: c[3],
        edit_count: c[4],
        read_count: c[5],
        todo_write_count: c[6],
        write_count: c[7],
    };
    let rows = vec![
        r("haiku-4-5-20251001", [0, 0, 0, 43, 0, 59, 0, 0]),
        r("opus-4-6", [1_280, 13_264, 1_575, 82, 146, 209, 0, 62]),
        r("gemini-3.1-pro-preview", [0; 8]),
    ];
    let t = analysis_totals(&rows).unwrap();
    assert_eq!(row_counts(&t), [1_280, 13_264, 1_575, 125, 146, 268, 0, 62]);
    assert_eq!(analysis_summary_counts(&t), Some((16_119, 601)));
}

#[test]
fn test_analysis_aggregation_logic() {
    let aggregated = |todo_write_count: usize, write_count: usize| AggregatedAnalysisRow {
        model: "sonnet-4".to_string(),
        edit_lines: 50,
        read_lines: 100,
        write_lines: 25,
        bash_count: 5,
        edit_count: 10,
        read_count: 15,
        todo_write_count,
        write_count,
    };
    let rows = convert_to_analysis_rows(&[aggregated(2, 3), aggregated(3, 5)]);
    let totals = analysis_totals(&rows).unwrap();
    assert_eq!(totals.edit_lines, 100);
    assert_eq!(totals.read_lines, 200);
    assert_eq!(totals.write_lines, 50);
}
