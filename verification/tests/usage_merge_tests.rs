use vibe_coding_tracker::gemini::content_text;
use vibe_coding_tracker::json::{Json, JsonMember, JsonNumber};
use vibe_coding_tracker::models::{GroupingMode, Provider, ProviderActiveDays};
use vibe_coding_tracker::usage::{group_by_period, FileUsage};
use vibe_coding_tracker::usage_averages::{build_usage_provider_rows, build_usage_rows, usage_daily_averages};
use vibe_coding_tracker::usage_merge::{
    extract_conversation_usage_from_analysis, group_usage_by_period, merge_usage_maps, merge_usage_values,
};
use vibe_coding_tracker::usage_table::{usage_totals, ModelTokens, TokenCounts};

fn num(n: i64) -> Json {
    if n >= 0 {
        Json::Number(JsonNumber::PosInt(n as u64))
    } else {
        Json::Number(JsonNumber::NegInt(n))
    }
}

fn obj(members: Vec<(&str, Json)>) -> Json {
    Json::Object(members.into_iter().map(|(k, v)| JsonMember { key: k.to_string(), value: v }).collect())
}

fn int_at(j: &Json, path: &[&str]) -> Option<i64> {
    let mut cur = j;
    for key in path {
        cur = cur.get(key)?;
    }
    cur.as_i64()
}

fn members(j: Json) -> Vec<JsonMember> {
    match j {
        Json::Object(m) => m,
        _ => panic!("not an object"),
    }
}

#[test]
fn merge_adds_token_fields_and_cache_creation() {
    let mut existing = obj(vec![
        ("input_tokens", num(10)),
        ("output_tokens", num(5)),
        ("service_tier", Json::Str("standard".to_string())),
        ("cache_creation", obj(vec![("ephemeral_5m_input_tokens", num(1))])),
    ]);
    let new = obj(vec![
        ("input_tokens", num(3)),
        ("cache_read_input_tokens", num(7)),
        ("output_tokens", Json::Str("x".to_string())),
        ("cache_creation", obj(vec![("ephemeral_5m_input_tokens", num(2)), ("ephemeral_1h_input_tokens", num(4))])),
    ]);
    merge_usage_values(&mut existing, &new);
    assert_eq!(int_at(&existing, &["input_tokens"]), Some(13));
    assert_eq!(int_at(&existing, &["output_tokens"]), Some(5));
    assert_eq!(int_at(&existing, &["cache_read_input_tokens"]), Some(7));
    assert_eq!(int_at(&existing, &["cache_creation", "ephemeral_5m_input_tokens"]), Some(3));
    assert_eq!(int_at(&existing, &["cache_creation", "ephemeral_1h_input_tokens"]), Some(4));
    assert!(matches!(existing.get("service_tier"), Some(Json::Str(s)) if s == "standard"));
}

#[test]
fn merge_adds_total_token_usage() {
    let mut existing = obj(vec![("total_token_usage", obj(vec![("input_tokens", num(100)), ("output_tokens", num(1))]))]);
    let new = obj(vec![("total_token_usage", obj(vec![("input_tokens", num(50)), ("reasoning_output_tokens", num(2))]))]);
    merge_usage_values(&mut existing, &new);
    assert_eq!(int_at(&existing, &["total_token_usage", "input_tokens"]), Some(150));
    assert_eq!(int_at(&existing, &["total_token_usage", "output_tokens"]), Some(1));
    assert_eq!(int_at(&existing, &["total_token_usage", "reasoning_output_tokens"]), Some(2));
}

#[test]
fn merge_keeps_other_usage() {
    let mut unknown = obj(vec![("tokens", num(1))]);
    merge_usage_values(&mut unknown, &obj(vec![("tokens", num(2))]));
    assert_eq!(int_at(&unknown, &["tokens"]), Some(1));
    let mut not_object = num(4);
    merge_usage_values(&mut not_object, &obj(vec![("input_tokens", num(2))]));
    assert_eq!(not_object.as_i64(), Some(4));
    let mut tokens = obj(vec![("input_tokens", num(1))]);
    merge_usage_values(&mut tokens, &Json::Null);
    assert_eq!(int_at(&tokens, &["input_tokens"]), Some(1));
}

#[test]
fn merge_sums_stay_in_range() {
    let mut existing = obj(vec![("input_tokens", num(i64::MAX))]);
    merge_usage_values(&mut existing, &obj(vec![("input_tokens", num(1))]));
    assert_eq!(int_at(&existing, &["input_tokens"]), Some(i64::MAX));
}

fn record(usage: Vec<(&str, Json)>) -> Json {
    obj(vec![("conversationUsage", obj(usage))])
}

#[test]
fn conversation_usage_merged_per_model() {
    let analysis = obj(vec![(
        "records",
        Json::Array(vec![
            record(vec![("m1", obj(vec![("input_tokens", num(1))])), ("m2", obj(vec![("input_tokens", num(2))]))]),
            num(7),
            record(vec![("m1", obj(vec![("input_tokens", num(3))]))]),
        ]),
    )]);
    let usage = extract_conversation_usage_from_analysis(&analysis);
    let keys: Vec<&str> = usage.iter().map(|m| m.key.as_str()).collect();
    assert_eq!(keys, vec!["m1", "m2"]);
    assert_eq!(int_at(&usage[0].value, &["input_tokens"]), Some(4));
    assert_eq!(int_at(&usage[1].value, &["input_tokens"]), Some(2));
    assert!(extract_conversation_usage_from_analysis(&Json::Null).is_empty());
}

#[test]
fn usage_maps_merged_over_files() {
    let a = members(obj(vec![("m1", obj(vec![("input_tokens", num(1))]))]));
    let b = members(obj(vec![("m2", obj(vec![("input_tokens", num(5))])), ("m1", obj(vec![("input_tokens", num(2))]))]));
    let merged = merge_usage_maps(&vec![a, b]);
    let keys: Vec<&str> = merged.iter().map(|m| m.key.as_str()).collect();
    assert_eq!(keys, vec!["m1", "m2"]);
    assert_eq!(int_at(&merged[0].value, &["input_tokens"]), Some(3));
    assert_eq!(int_at(&merged[1].value, &["input_tokens"]), Some(5));
}

#[test]
fn grouped_usage_merged_per_period() {
    let usage = |n: i64| members(obj(vec![("m", obj(vec![("input_tokens", num(n))]))]));
    let file = |date: &str, n: i64| FileUsage { date: date.to_string(), usage: usage(n), provider: Provider::Codex };
    let grouped = group_usage_by_period(
        vec![file("2025-03-10", 1), file("2025-03-12", 2), file("2025-03-17", 4)],
        GroupingMode::Weekly,
    );
    let keys: Vec<&str> = grouped.periods.iter().map(|p| p.period_key.as_str()).collect();
    assert_eq!(keys, vec!["2025-W11", "2025-W12"]);
    assert_eq!(grouped.periods[0].models.len(), 1);
    assert_eq!(int_at(&grouped.periods[0].models[0].value, &["input_tokens"]), Some(3));
    assert_eq!(int_at(&grouped.periods[1].models[0].value, &["input_tokens"]), Some(4));
    assert_eq!(grouped.periods[0].provider_days.codex.len(), 2);
}

#[test]
fn weekly_periods_regroup_daily_periods() {
    let file = |date: &str, provider: Provider| FileUsage { date: date.to_string(), usage: 0u8, provider };
    let files = || {
        vec![
            file("2025-03-10", Provider::Codex),
            file("2025-03-16", Provider::Codex),
            file("2025-03-17", Provider::Gemini),
            file("2025-03-10", Provider::Gemini),
        ]
    };
    let daily = group_by_period(files(), GroupingMode::Daily);
    let weekly = group_by_period(files(), GroupingMode::Weekly);
    let day_keys: Vec<&str> = daily.periods.iter().map(|p| p.period_key.as_str()).collect();
    assert_eq!(day_keys, vec!["2025-03-10", "2025-03-16", "2025-03-17"]);
    let week_keys: Vec<&str> = weekly.periods.iter().map(|p| p.period_key.as_str()).collect();
    assert_eq!(week_keys, vec!["2025-W11", "2025-W12"]);
    let mut codex = weekly.periods[0].provider_days.codex.clone();
    codex.sort();
    assert_eq!(codex, vec!["2025-03-10", "2025-03-16"]);
    assert_eq!(weekly.periods[0].provider_days.gemini, vec!["2025-03-10"]);
    assert_eq!(weekly.periods[1].provider_days.gemini, vec!["2025-03-17"]);
}

fn tokens(model: &str, total: i64) -> ModelTokens {
    ModelTokens {
        model: model.to_string(),
        counts: TokenCounts { input_tokens: total, output_tokens: 0, cache_read: 0, cache_creation: 0, total },
    }
}

#[test]
fn usage_rows_sorted_and_totalled() {
    let rows = build_usage_rows(&vec![tokens("sonnet-4", 5), tokens("gpt-5", 7), tokens("gemini-2.5", 1)]);
    let names: Vec<&str> = rows.iter().map(|r| r.model.as_str()).collect();
    assert_eq!(names, vec!["gemini-2.5", "gpt-5", "sonnet-4"]);
    assert_eq!(usage_totals(&rows).unwrap().total, 13);
}

#[test]
fn usage_averages_by_provider() {
    let rows = vec![tokens("sonnet-4", 30), tokens("gpt-5", 10), tokens("mystery", 5)];
    let providers = vec![Provider::ClaudeCode, Provider::Codex, Provider::Unknown];
    let days = ProviderActiveDays { claude: 3, codex: 1, copilot: 0, gemini: 0, total: 3 };
    let a = usage_daily_averages(&rows, &providers, &days);
    assert_eq!((a.claude.total_tokens, a.claude.days_count), (30, 3));
    assert_eq!((a.codex.total_tokens, a.codex.days_count), (10, 1));
    assert_eq!((a.copilot.total_tokens, a.gemini.total_tokens), (0, 0));
    assert_eq!((a.overall.total_tokens, a.overall.days_count), (45, 3));
    let lines = build_usage_provider_rows(&a);
    let shown: Vec<(Provider, bool)> = lines.iter().map(|l| (l.provider, l.emphasize)).collect();
    assert_eq!(shown, vec![(Provider::ClaudeCode, false), (Provider::Codex, false), (Provider::Unknown, true)]);
}

#[test]
fn other_content_values_give_their_json_text() {
    assert_eq!(content_text(&Json::Bool(true)), Some("true".to_string()));
    assert_eq!(content_text(&Json::Bool(false)), Some("false".to_string()));
    assert_eq!(content_text(&num(42)), Some("42".to_string()));
    assert_eq!(content_text(&num(-7)), Some("-7".to_string()));
    assert_eq!(content_text(&num(i64::MIN)), Some("-9223372036854775808".to_string()));
}

#[test]
fn other_content_values_objects_and_fractions() {
    let v = obj(vec![
        ("a", Json::Array(vec![num(1), Json::Null, Json::Bool(false)])),
        ("b\"\\\n\u{1}", Json::Str("tab\there".to_string())),
        ("c", obj(vec![])),
    ]);
    assert_eq!(
        content_text(&v),
        Some("{\"a\":[1,null,false],\"b\\\"\\\\\\n\\u0001\":\"tab\\there\",\"c\":{}}".to_string())
    );
    assert_eq!(content_text(&Json::Number(JsonNumber::Float)), None);
    assert_eq!(content_text(&obj(vec![("x", Json::Number(JsonNumber::Float))])), None);
}

fn from_value(v: &serde_json::Value) -> Json {
    match v {
        serde_json::Value::Null => Json::Null,
        serde_json::Value::Bool(b) => Json::Bool(*b),
        serde_json::Value::Number(n) => match (n.as_u64(), n.as_i64()) {
            (Some(u), _) => Json::Number(JsonNumber::PosInt(u)),
            (None, Some(i)) => Json::Number(JsonNumber::NegInt(i)),
            _ => Json::Number(JsonNumber::Float),
        },
        serde_json::Value::String(s) => Json::Str(s.clone()),
        serde_json::Value::Array(a) => Json::Array(a.iter().map(from_value).collect()),
        serde_json::Value::Object(o) => {
            Json::Object(o.iter().map(|(k, v)| JsonMember { key: k.clone(), value: from_value(v) }).collect())
        },
    }
}

#[test]
fn json_text_matches_serde_json() {
    let mut inner = serde_json::Map::new();
    inner.insert("z\u{7f}\u{1f}".to_string(), serde_json::Value::from(-12i64));
    inner.insert("a\"q".to_string(), serde_json::Value::from("line\r\nend \u{8}\u{c} é"));
    let mut outer = serde_json::Map::new();
    outer.insert("nested".to_string(), serde_json::Value::Object(inner));
    outer.insert(
        "list".to_string(),
        serde_json::Value::Array(vec![serde_json::Value::from(u64::MAX), serde_json::Value::Bool(true), serde_json::Value::Null]),
    );
    let value = serde_json::Value::Object(outer);
    assert_eq!(content_text(&from_value(&value)), Some(value.to_string()));
}
