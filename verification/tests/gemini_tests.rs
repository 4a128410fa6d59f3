use vibe_coding_tracker::gemini::{content_text, extract_tool_result_output, plan_gemini_session, GeminiAction};
use vibe_coding_tracker::json::{Json, JsonMember, JsonNumber};
use vibe_coding_tracker::models::{GeminiMessage, GeminiTokens};

fn obj(members: Vec<(&str, Json)>) -> Json {
    Json::Object(members.into_iter().map(|(k, v)| JsonMember { key: k.to_string(), value: v }).collect())
}

fn s(t: &str) -> Json {
    Json::Str(t.to_string())
}

fn message(kind: &str, tokens: Option<GeminiTokens>, model: Option<&str>, tool_calls: Vec<Json>) -> GeminiMessage {
    GeminiMessage {
        id: "id".to_string(),
        timestamp: "t".to_string(),
        message_type: kind.to_string(),
        content: String::new(),
        thoughts: vec![],
        tokens,
        model: model.map(|m| m.to_string()),
        tool_calls,
    }
}

fn tokens(total: i64) -> GeminiTokens {
    GeminiTokens { input: 1, output: 2, cached: 3, thoughts: 4, tool: 5, total }
}

#[test]
fn tool_result_output_path() {
    let call = obj(vec![(
        "result",
        Json::Array(vec![obj(vec![("functionResponse", obj(vec![("response", obj(vec![("output", s("file body"))]))]))])]),
    )]);
    assert_eq!(extract_tool_result_output(&call), "file body");
    assert_eq!(extract_tool_result_output(&obj(vec![("result", Json::Array(vec![]))])), "");
    assert_eq!(extract_tool_result_output(&Json::Null), "");
}

#[test]
fn plan_reads_gemini_messages_only() {
    let read = obj(vec![
        ("name", s("read_file")),
        ("args", obj(vec![("file_path", s("a.rs"))])),
        (
            "result",
            Json::Array(vec![obj(vec![("functionResponse", obj(vec![("response", obj(vec![("output", s("x\ny"))]))]))])]),
        ),
    ]);
    let edit = obj(vec![
        ("name", s("replace_in_file")),
        ("args", obj(vec![("file_path", s("b.rs")), ("old_text", s("old")), ("new_string", s("new"))])),
    ]);
    let shell = obj(vec![("name", s("shell")), ("args", obj(vec![("cmd", s("ls")), ("description", s("list"))]))]);
    let write = obj(vec![("name", s("create_file")), ("args", obj(vec![("file_path", s("c.rs")), ("content", s("z"))]))]);
    let unknown = obj(vec![("name", s("search")), ("args", obj(vec![]))]);
    let nameless = obj(vec![("name", Json::Number(JsonNumber::PosInt(1)))]);
    let messages = vec![
        message("user", Some(tokens(99)), Some("gemini-pro"), vec![read.clone_json()]),
        message("gemini", Some(tokens(10)), Some("gemini-pro"), vec![read, edit, unknown, nameless, shell, write]),
        message("gemini", None, Some("gemini-pro"), vec![]),
    ];
    let plan = plan_gemini_session(&messages, &vec![500, 200, 300]);
    assert_eq!(plan.last_timestamp, 500);
    assert_eq!(plan.actions.len(), 5);
    match &plan.actions[0] {
        GeminiAction::Usage { model, tokens } => {
            assert_eq!(model, "gemini-pro");
            assert_eq!(tokens.total, 10);
        },
        other => panic!("unexpected {:?}", other),
    }
    match &plan.actions[1] {
        GeminiAction::Read { file_path, content, timestamp } => {
            assert_eq!((file_path.as_str(), content.as_str(), *timestamp), ("a.rs", "x\ny", 200));
        },
        other => panic!("unexpected {:?}", other),
    }
    match &plan.actions[2] {
        GeminiAction::Edit { file_path, old_string, new_string, .. } => {
            assert_eq!((file_path.as_str(), old_string.as_str(), new_string.as_str()), ("b.rs", "old", "new"));
        },
        other => panic!("unexpected {:?}", other),
    }
    match &plan.actions[3] {
        GeminiAction::RunCommand { command, description, .. } => {
            assert_eq!((command.as_str(), description.as_str()), ("ls", "list"));
        },
        other => panic!("unexpected {:?}", other),
    }
    match &plan.actions[4] {
        GeminiAction::Write { file_path, content, .. } => {
            assert_eq!((file_path.as_str(), content.as_str()), ("c.rs", "z"));
        },
        other => panic!("unexpected {:?}", other),
    }
}

#[test]
fn plan_of_empty_session() {
    let plan = plan_gemini_session(&vec![], &vec![]);
    assert_eq!(plan.last_timestamp, 0);
    assert!(plan.actions.is_empty());
    let only_old = plan_gemini_session(&vec![message("user", None, None, vec![])], &vec![-5]);
    assert_eq!(only_old.last_timestamp, 0);
}

#[test]
fn alias_present_but_not_text_gives_empty() {
    let edit = obj(vec![
        ("name", s("edit_file")),
        ("args", obj(vec![("old_string", Json::Null), ("old_text", s("ignored"))])),
    ]);
    let plan = plan_gemini_session(&vec![message("gemini", None, None, vec![edit])], &vec![1]);
    match &plan.actions[0] {
        GeminiAction::Edit { file_path, old_string, new_string, .. } => {
            assert_eq!((file_path.as_str(), old_string.as_str(), new_string.as_str()), ("", "", ""));
        },
        other => panic!("unexpected {:?}", other),
    }
}

#[test]
fn content_from_string_parts_and_null() {
    assert_eq!(content_text(&s("hello")), Some("hello".to_string()));
    let parts = Json::Array(vec![obj(vec![("text", s("a"))]), obj(vec![("other", s("b"))]), obj(vec![("text", s("c"))])]);
    assert_eq!(content_text(&parts), Some("a\nc".to_string()));
    assert_eq!(content_text(&Json::Array(vec![])), Some(String::new()));
    assert_eq!(content_text(&Json::Null), Some(String::new()));
    assert_eq!(content_text(&Json::Bool(true)), Some("true".to_string()));
    assert_eq!(content_text(&obj(vec![("k", s("v"))])), Some("{\"k\":\"v\"}".to_string()));
}

trait CloneJson {
    fn clone_json(&self) -> Json;
}

impl CloneJson for Json {
    fn clone_json(&self) -> Json {
        match self {
            Json::Null => Json::Null,
            Json::Bool(b) => Json::Bool(*b),
            Json::Number(n) => Json::Number(n.clone()),
            Json::Str(t) => Json::Str(t.clone()),
            Json::Array(items) => Json::Array(items.iter().map(|i| i.clone_json()).collect()),
            Json::Object(members) => Json::Object(
                members.iter().map(|m| JsonMember { key: m.key.clone(), value: m.value.clone_json() }).collect(),
            ),
        }
    }
}
