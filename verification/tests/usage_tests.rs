use vibe_coding_tracker::json::{Json, JsonMember, JsonNumber};
use vibe_coding_tracker::models::{GroupingMode, Provider};
use vibe_coding_tracker::usage::{
    conversation_usage_entries, count_provider_days, group_by_period, grouped_provider_summary, FileUsage,
    ProviderTokens, SummaryLine,
};

fn obj(members: Vec<(&str, Json)>) -> Json {
    Json::Object(members.into_iter().map(|(k, v)| JsonMember { key: k.to_string(), value: v }).collect())
}

fn num(n: u64) -> Json {
    Json::Number(JsonNumber::PosInt(n))
}

fn strings(v: &[&str]) -> Vec<String> {
    v.iter().map(|s| s.to_string()).collect()
}

fn file(date: &str, usage: u32, provider: Provider) -> FileUsage<u32> {
    FileUsage { date: date.to_string(), usage, provider }
}

#[test]
fn provider_days_count_distinct_dates() {
    let d = count_provider_days(
        &strings(&["2025-01-01", "2025-01-01", "2025-01-02"]),
        &strings(&["2025-01-02"]),
        &strings(&[]),
        &strings(&["2025-01-05", "2025-01-05"]),
    );
    assert_eq!((d.claude, d.codex, d.copilot, d.gemini), (2, 1, 0, 1));
    assert_eq!(d.total, 3);
}

#[test]
fn daily_grouping_keeps_order_and_days() {
    let files = vec![
        file("2025-03-12", 1, Provider::ClaudeCode),
        file("2025-03-10", 2, Provider::Codex),
        file("2025-03-12", 3, Provider::ClaudeCode),
        file("2025-03-12", 4, Provider::Gemini),
        file("2025-03-10", 5, Provider::Unknown),
    ];
    let grouped = group_by_period(files, GroupingMode::Daily);
    assert_eq!(grouped.grouping_mode, GroupingMode::Daily);
    let keys: Vec<&str> = grouped.periods.iter().map(|p| p.period_key.as_str()).collect();
    assert_eq!(keys, vec!["2025-03-10", "2025-03-12"]);
    assert_eq!(grouped.periods[0].models, vec![2, 5]);
    assert_eq!(grouped.periods[1].models, vec![1, 3, 4]);
    assert_eq!(grouped.periods[1].provider_days.claude, strings(&["2025-03-12"]));
    assert_eq!(grouped.periods[1].provider_days.gemini, strings(&["2025-03-12"]));
    assert!(grouped.periods[1].provider_days.codex.is_empty());
    assert_eq!(grouped.periods[0].provider_days.codex, strings(&["2025-03-10"]));
    // every file lands in exactly one period
    let total: usize = grouped.periods.iter().map(|p| p.models.len()).sum();
    assert_eq!(total, 5);
}

#[test]
fn weekly_grouping_counts_active_days_per_provider() {
    let files = vec![
        file("2025-03-10", 1, Provider::ClaudeCode),
        file("2025-03-12", 2, Provider::ClaudeCode),
        file("2025-03-12", 3, Provider::ClaudeCode),
        file("2025-03-17", 4, Provider::Copilot),
        file("not-a-date", 5, Provider::Codex),
    ];
    let grouped = group_by_period(files, GroupingMode::Weekly);
    let keys: Vec<&str> = grouped.periods.iter().map(|p| p.period_key.as_str()).collect();
    assert_eq!(keys, vec!["2025-W11", "2025-W12", "not-a-date"]);
    assert_eq!(grouped.periods[0].models, vec![1, 2, 3]);
    assert_eq!(grouped.periods[0].provider_days.claude.len(), 2);
    assert_eq!(grouped.periods[1].provider_days.copilot, strings(&["2025-03-17"]));
    assert_eq!(grouped.periods[2].provider_days.codex, strings(&["not-a-date"]));
}

#[test]
fn grouping_no_files() {
    let grouped = group_by_period(Vec::<FileUsage<u32>>::new(), GroupingMode::Weekly);
    assert!(grouped.periods.is_empty());
    assert_eq!(grouped.grouping_mode, GroupingMode::Weekly);
}

#[test]
fn usage_entries_follow_records() {
    let analysis = obj(vec![(
        "records",
        Json::Array(vec![
            obj(vec![("conversationUsage", obj(vec![("m1", num(1)), ("m2", num(2))]))]),
            Json::Str("skip".to_string()),
            obj(vec![("conversationUsage", Json::Null)]),
            obj(vec![("conversationUsage", obj(vec![("m1", num(3))]))]),
        ]),
    )]);
    let entries = conversation_usage_entries(&analysis);
    let got: Vec<(&str, u64)> = entries
        .iter()
        .map(|e| match e.usage {
            Json::Number(JsonNumber::PosInt(n)) => (e.model.as_str(), *n),
            _ => (e.model.as_str(), 0),
        })
        .collect();
    assert_eq!(got, vec![("m1", 1), ("m2", 2), ("m1", 3)]);
    assert!(conversation_usage_entries(&Json::Null).is_empty());
}

#[test]
fn provider_summary_shows_key_on_first_line_of_each_period() {
    let files = vec![
        file("2025-03-10", 1, Provider::ClaudeCode),
        file("2025-03-11", 2, Provider::Gemini),
        file("2025-03-12", 3, Provider::Codex),
    ];
    let grouped = group_by_period(files, GroupingMode::Daily);
    let tokens = vec![
        ProviderTokens { claude: 100, codex: 0, copilot: 0, gemini: 0 },
        ProviderTokens { claude: 0, codex: 0, copilot: 7, gemini: 50 },
        ProviderTokens { claude: 0, codex: 30, copilot: 0, gemini: 0 },
    ];
    let lines = grouped_provider_summary(&grouped.periods, &tokens);
    let line = |period_index: usize, provider: Provider, tokens: i64, active_days: usize, show_period: bool| SummaryLine {
        period_index,
        provider,
        tokens,
        active_days,
        show_period,
    };
    assert_eq!(
        lines,
        vec![
            line(0, Provider::ClaudeCode, 100, 1, true),
            line(1, Provider::Copilot, 7, 0, true),
            line(1, Provider::Gemini, 50, 1, false),
            line(2, Provider::Codex, 30, 1, true),
        ]
    );
}

#[test]
fn provider_summary_gemini_only_period_shows_its_key() {
    let grouped = group_by_period(vec![file("2025-03-12", 1, Provider::Gemini)], GroupingMode::Daily);
    let tokens = vec![ProviderTokens { claude: 0, codex: 0, copilot: 0, gemini: 0 }];
    let lines = grouped_provider_summary(&grouped.periods, &tokens);
    assert_eq!(
        lines,
        vec![SummaryLine { period_index: 0, provider: Provider::Gemini, tokens: 0, active_days: 1, show_period: true }]
    );
}
