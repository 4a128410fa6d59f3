use ahash::AHashMap;
use vibe_coding_tracker::batch::{
    aggregate_all_sessions, aggregate_analysis_result, process_analysis_results, sort_rows_by_model,
    AggregatedAnalysisRow, FileAnalysis,
};
use vibe_coding_tracker::json::{Json, JsonMember, JsonNumber};

fn num(n: u64) -> Json {
    Json::Number(JsonNumber::PosInt(n))
}

fn text(s: &str) -> Json {
    Json::Str(s.to_string())
}

fn obj(members: Vec<(&str, Json)>) -> Json {
    Json::Object(members.into_iter().map(|(k, v)| JsonMember { key: k.to_string(), value: v }).collect())
}

fn record(models: &[&str], edit: u64, read: u64, write: u64, tools: Option<Json>) -> Json {
    let mut members = vec![
        ("conversationUsage", obj(models.iter().map(|m| (*m, obj(vec![("input_tokens", num(1))]))).collect())),
        ("totalEditLines", num(edit)),
        ("totalReadLines", num(read)),
        ("totalWriteLines", num(write)),
    ];
    if let Some(t) = tools {
        members.push(("toolCallCounts", t));
    }
    obj(members)
}

fn analysis(records: Vec<Json>) -> Json {
    obj(vec![("records", Json::Array(records))])
}

fn counts(row: &AggregatedAnalysisRow) -> [usize; 8] {
    [
        row.edit_lines,
        row.read_lines,
        row.write_lines,
        row.bash_count,
        row.edit_count,
        row.read_count,
        row.todo_write_count,
        row.write_count,
    ]
}

#[test]
fn aggregate_adds_lines_and_tools_per_model() {
    let tools = obj(vec![("Bash", num(2)), ("Edit", num(3)), ("Read", num(4)), ("TodoWrite", num(5)), ("Write", num(6))]);
    let doc = analysis(vec![
        record(&["sonnet-4"], 10, 20, 30, Some(tools)),
        record(&["sonnet-4", "gpt-5"], 1, 1, 1, None),
    ]);
    let mut map: AHashMap<String, AggregatedAnalysisRow> = AHashMap::new();
    aggregate_analysis_result(&mut map, &doc);
    assert_eq!(map.len(), 2);
    assert_eq!(counts(&map["sonnet-4"]), [11, 21, 31, 2, 3, 4, 5, 6]);
    assert_eq!(counts(&map["gpt-5"]), [1, 1, 1, 0, 0, 0, 0, 0]);
    assert_eq!(map["gpt-5"].model, "gpt-5");
}

#[test]
fn aggregate_skips_synthetic_models() {
    let doc = analysis(vec![record(&["<synthetic>", "m-<synthetic>-x", "real"], 5, 0, 0, None)]);
    let mut map: AHashMap<String, AggregatedAnalysisRow> = AHashMap::new();
    aggregate_analysis_result(&mut map, &doc);
    assert_eq!(map.len(), 1);
    assert_eq!(map["real"].edit_lines, 5);
}

#[test]
fn aggregate_ignores_malformed_parts() {
    let doc = obj(vec![(
        "records",
        Json::Array(vec![
            text("not a record"),
            obj(vec![("conversationUsage", Json::Array(vec![])), ("totalEditLines", num(9))]),
            obj(vec![
                ("conversationUsage", obj(vec![("m", Json::Null)])),
                ("totalEditLines", text("7")),
                ("totalReadLines", Json::Number(JsonNumber::NegInt(-3))),
                ("totalWriteLines", Json::Number(JsonNumber::Float)),
                ("toolCallCounts", Json::Array(vec![num(1)])),
            ]),
        ]),
    )]);
    let mut map: AHashMap<String, AggregatedAnalysisRow> = AHashMap::new();
    aggregate_analysis_result(&mut map, &doc);
    assert_eq!(map.len(), 1);
    assert_eq!(counts(&map["m"]), [0; 8]);

    let mut untouched: AHashMap<String, AggregatedAnalysisRow> = AHashMap::new();
    aggregate_analysis_result(&mut untouched, &obj(vec![("records", text("x"))]));
    aggregate_analysis_result(&mut untouched, &Json::Null);
    assert!(untouched.is_empty());
}

#[test]
fn process_results_collects_distinct_dates() {
    let files = vec![
        FileAnalysis { modified_date: "2025-10-11".to_string(), analysis: analysis(vec![record(&["a"], 1, 0, 0, None)]) },
        FileAnalysis { modified_date: "2025-10-11".to_string(), analysis: analysis(vec![record(&["a"], 2, 0, 0, None)]) },
        FileAnalysis { modified_date: "2025-10-12".to_string(), analysis: analysis(vec![]) },
    ];
    let mut map: AHashMap<String, AggregatedAnalysisRow> = AHashMap::new();
    let mut dates = vec!["2025-10-12".to_string()];
    process_analysis_results(&mut map, &mut dates, &files);
    assert_eq!(dates, vec!["2025-10-12".to_string(), "2025-10-11".to_string()]);
    assert_eq!(map["a"].edit_lines, 3);
}

#[test]
fn all_sessions_sorted_with_provider_days() {
    let file = |date: &str, models: &[&str], edit: u64| FileAnalysis {
        modified_date: date.to_string(),
        analysis: analysis(vec![record(models, edit, 0, 0, None)]),
    };
    let claude = vec![file("2025-01-01", &["zeta", "alpha"], 2), file("2025-01-02", &["alpha"], 3)];
    let codex = vec![file("2025-01-02", &["mid"], 4)];
    let copilot: Vec<FileAnalysis> = vec![];
    let gemini = vec![file("2025-01-03", &["alpha"], 1), file("2025-01-03", &["beta"], 1)];
    let data = aggregate_all_sessions(&claude, &codex, &copilot, &gemini);
    let models: Vec<&str> = data.rows.iter().map(|r| r.model.as_str()).collect();
    assert_eq!(models, vec!["alpha", "beta", "mid", "zeta"]);
    assert_eq!(data.rows[0].edit_lines, 6);
    assert_eq!(data.rows[3].edit_lines, 2);
    assert_eq!(data.provider_days.claude, 2);
    assert_eq!(data.provider_days.codex, 1);
    assert_eq!(data.provider_days.copilot, 0);
    assert_eq!(data.provider_days.gemini, 1);
    assert_eq!(data.provider_days.total, 3);
}

#[test]
fn all_sessions_empty() {
    let none: Vec<FileAnalysis> = vec![];
    let data = aggregate_all_sessions(&none, &none, &none, &none);
    assert!(data.rows.is_empty());
    assert_eq!(data.provider_days.total, 0);
}

#[test]
fn sort_rows_orders_by_model_bytes() {
    let row = |m: &str| AggregatedAnalysisRow {
        model: m.to_string(),
        edit_lines: 0,
        read_lines: 0,
        write_lines: 0,
        bash_count: 0,
        edit_count: 0,
        read_count: 0,
        todo_write_count: 0,
        write_count: 0,
    };
    let sorted = sort_rows_by_model(vec![row("b"), row("B"), row("ab"), row("a"), row("é")]);
    let models: Vec<&str> = sorted.iter().map(|r| r.model.as_str()).collect();
    assert_eq!(models, vec!["B", "a", "ab", "b", "é"]);
}

#[test]
fn aggregate_skips_empty_model_names() {
    let doc = analysis(vec![record(&["", "real"], 5, 0, 0, None)]);
    let mut map = AHashMap::new();
    aggregate_analysis_result(&mut map, &doc);
    assert_eq!(map.len(), 1);
    assert!(map.contains_key("real"));
}
