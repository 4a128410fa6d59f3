//! Gemini sessions: message content, and the operations that a session's messages record.
use vstd::prelude::*;
use crate::json::{Json, JsonMember};
use crate::json_text::{json_text, to_json_text};
use crate::models::{GeminiMessage, GeminiTokens};
use crate::text::str_equal;

verus! {

/// The text of a string, or nothing.
pub open spec fn str_of(v: Option<Json>) -> Option<Seq<char>> {
    match v {
        Some(Json::Str(s)) => Some(s@),
        _ => None,
    }
}

/// `v.get(key)` as text, or the empty text.
pub open spec fn text_or_empty(v: Option<Json>, key: Seq<char>) -> Seq<char> {
    match v {
        Some(a) => match str_of(a.get_spec(key)) {
            Some(s) => s,
            None => Seq::empty(),
        },
        None => Seq::empty(),
    }
}

/// `v.get(first)`, or `v.get(second)` where `first` is absent, as text, or the empty text.
pub open spec fn text_or_alias(v: Option<Json>, first: Seq<char>, second: Seq<char>) -> Seq<char> {
    match v {
        Some(a) => match a.get_spec(first) {
            Some(x) => match str_of(Some(x)) {
                Some(s) => s,
                None => Seq::empty(),
            },
            None => text_or_empty(Some(a), second),
        },
        None => Seq::empty(),
    }
}

fn text_of(v: Option<&Json>) -> (r: String)
    ensures
        r@ == (match str_of(match v { Some(x) => Some(*x), None => None }) {
            Some(s) => s,
            None => Seq::empty(),
        }),
{
    match v {
        Some(x) => match x.as_str() {
            Some(s) => s.clone(),
            None => String::new(),
        },
        None => String::new(),
    }
}

fn text_member(v: Option<&Json>, key: &str) -> (r: String)
    ensures
        r@ == text_or_empty(match v { Some(x) => Some(*x), None => None }, key@),
{
    match v {
        Some(a) => text_of(a.get(key)),
        None => String::new(),
    }
}

fn text_member_or_alias(v: Option<&Json>, first: &str, second: &str) -> (r: String)
    ensures
        r@ == text_or_alias(match v { Some(x) => Some(*x), None => None }, first@, second@),
{
    match v {
        Some(a) => match a.get(first) {
            Some(x) => text_of(Some(x)),
            None => text_member(Some(a), second),
        },
        None => String::new(),
    }
}

/// The output of a Gemini tool call: `result[0].functionResponse.response.output` when that is
/// text, else the empty text.
pub open spec fn tool_result_output(tool_call: Json) -> Seq<char> {
    match tool_call.get_spec("result"@) {
        Some(Json::Array(items)) => if items@.len() > 0 {
            match items@[0].get_spec("functionResponse"@) {
                Some(fr) => match fr.get_spec("response"@) {
                    Some(resp) => text_or_empty(Some(resp), "output"@),
                    None => Seq::empty(),
                },
                None => Seq::empty(),
            }
        } else {
            Seq::empty()
        },
        _ => Seq::empty(),
    }
}

/// Extracts the output text of a Gemini tool call result
/// (`[{ "functionResponse": { "response": { "output": "..." } } }]`).
pub fn extract_tool_result_output(tool_call: &Json) -> (r: String)
    ensures
        r@ == tool_result_output(*tool_call),
{
    match tool_call.get("result") {
        Some(res) => match res.as_array() {
            Some(items) => if items.len() > 0 {
                match items[0].get("functionResponse") {
                    Some(fr) => text_member(fr.get("response"), "output"),
                    None => String::new(),
                }
            } else {
                String::new()
            },
            None => String::new(),
        },
        None => String::new(),
    }
}

/// What a Gemini session records, in message order, for the analysis state.
#[derive(Debug)]
pub enum GeminiAction {
    /// Token usage of a model.
    Usage { model: String, tokens: GeminiTokens },
    /// A file was read.
    Read { file_path: String, content: String, timestamp: i64 },
    /// A file was written.
    Write { file_path: String, content: String, timestamp: i64 },
    /// A file was edited.
    Edit { file_path: String, old_string: String, new_string: String, timestamp: i64 },
    /// A command was run.
    RunCommand { command: String, description: String, timestamp: i64 },
}

/// An action as plain values: its kind (0 usage, 1 read, 2 write, 3 edit, 4 command), its
/// texts, its tokens and its timestamp.
pub open spec fn action_view(a: GeminiAction) -> (int, Seq<Seq<char>>, Option<GeminiTokens>, i64) {
    match a {
        GeminiAction::Usage { model, tokens } => (0, seq![model@], Some(tokens), 0),
        GeminiAction::Read { file_path, content, timestamp } => (1, seq![file_path@, content@], None, timestamp),
        GeminiAction::Write { file_path, content, timestamp } => (2, seq![file_path@, content@], None, timestamp),
        GeminiAction::Edit { file_path, old_string, new_string, timestamp } => (
            3,
            seq![file_path@, old_string@, new_string@],
            None,
            timestamp,
        ),
        GeminiAction::RunCommand { command, description, timestamp } => (4, seq![command@, description@], None, timestamp),
    }
}

/// The action that a tool call records, if any: by its `name`, reading its `args`.
pub open spec fn tool_call_action(call: Json, ts: i64) -> Seq<(int, Seq<Seq<char>>, Option<GeminiTokens>, i64)> {
    let args = call.get_spec("args"@);
    match str_of(call.get_spec("name"@)) {
        Some(name) => if name == "read_file"@ {
            seq![(1, seq![text_or_empty(args, "file_path"@), tool_result_output(call)], None, ts)]
        } else if name == "write_file"@ || name == "create_file"@ {
            seq![(2, seq![text_or_empty(args, "file_path"@), text_or_empty(args, "content"@)], None, ts)]
        } else if name == "edit_file"@ || name == "replace_in_file"@ {
            seq![(
                3,
                seq![
                    text_or_empty(args, "file_path"@),
                    text_or_alias(args, "old_string"@, "old_text"@),
                    text_or_alias(args, "new_string"@, "new_text"@),
                ],
                None,
                ts,
            )]
        } else if name == "run_command"@ || name == "execute_command"@ || name == "shell"@ {
            seq![(4, seq![text_or_alias(args, "command"@, "cmd"@), text_or_empty(args, "description"@)], None, ts)]
        } else {
            Seq::empty()
        },
        None => Seq::empty(),
    }
}

/// The actions of tool calls, in order.
pub open spec fn tool_calls_actions(calls: Seq<Json>, ts: i64) -> Seq<(int, Seq<Seq<char>>, Option<GeminiTokens>, i64)>
    decreases calls.len(),
{
    if calls.len() == 0 {
        Seq::empty()
    } else {
        tool_calls_actions(calls.drop_last(), ts) + tool_call_action(calls.last(), ts)
    }
}

/// The actions of one message: none unless it is Gemini's; then its usage where it names
/// both tokens and model, then its tool calls.
pub open spec fn message_actions(m: GeminiMessage, ts: i64) -> Seq<(int, Seq<Seq<char>>, Option<GeminiTokens>, i64)> {
    if m.message_type@ != "gemini"@ {
        Seq::empty()
    } else {
        let usage = match (m.tokens, m.model) {
            (Some(t), Some(model)) => seq![(0int, seq![model@], Some(t), 0i64)],
            _ => Seq::empty(),
        };
        usage + tool_calls_actions(m.tool_calls@, ts)
    }
}

/// The actions of messages, in order (`timestamps[i]` is the time of `messages[i]`).
pub open spec fn session_actions(messages: Seq<GeminiMessage>, timestamps: Seq<i64>) -> Seq<(int, Seq<Seq<char>>, Option<GeminiTokens>, i64)>
    decreases messages.len(),
{
    if messages.len() == 0 || timestamps.len() == 0 {
        Seq::empty()
    } else {
        session_actions(messages.drop_last(), timestamps.drop_last()) + message_actions(messages.last(), timestamps.last())
    }
}

/// The latest of the timestamps, and 0 when none is later.
pub open spec fn latest_timestamp(timestamps: Seq<i64>) -> i64
    decreases timestamps.len(),
{
    if timestamps.len() == 0 {
        0
    } else {
        let prev = latest_timestamp(timestamps.drop_last());
        if timestamps.last() > prev { timestamps.last() } else { prev }
    }
}

/// Law: the latest timestamp is at least 0 and at least every timestamp, and it is 0 or one
/// of them.
pub proof fn lemma_latest_timestamp_bounds(timestamps: Seq<i64>)
    ensures
        latest_timestamp(timestamps) >= 0,
        forall|i: int| 0 <= i < timestamps.len() ==> #[trigger] timestamps[i] <= latest_timestamp(timestamps),
        latest_timestamp(timestamps) == 0 || exists|i: int| 0 <= i < timestamps.len() && #[trigger] timestamps[i] == latest_timestamp(timestamps),
    decreases timestamps.len(),
{
    if timestamps.len() > 0 {
        let prev = timestamps.drop_last();
        lemma_latest_timestamp_bounds(prev);
        assert forall|i: int| 0 <= i < timestamps.len() implies #[trigger] timestamps[i] <= latest_timestamp(timestamps) by {
            if i < prev.len() {
                assert(prev[i] == timestamps[i]);
            }
        }
        if latest_timestamp(timestamps) != 0 {
            if timestamps.last() > latest_timestamp(prev) {
                assert(timestamps[timestamps.len() - 1] == latest_timestamp(timestamps));
            } else {
                let i = choose|i: int| 0 <= i < prev.len() && #[trigger] prev[i] == latest_timestamp(prev);
                assert(timestamps[i] == prev[i]);
            }
        }
    }
}

/// Law: what a tool call records, by its name. `read_file` records a read of `args.file_path`
/// with the call's result output; `write_file` and `create_file` both record a write of
/// `args.file_path` with `args.content`; `edit_file` and `replace_in_file` record an edit of
/// `args.file_path` from `old_string` (or `old_text`) to `new_string` (or `new_text`);
/// `run_command`, `execute_command` and `shell` record a command (`command` or `cmd`) with its
/// `description`; a call with another name, or with no name, records nothing. Every recorded
/// action carries the message's timestamp.
pub proof fn lemma_tool_call_action_by_name(call: Json, ts: i64)
    ensures
        ({
            let args = call.get_spec("args"@);
            let name = str_of(call.get_spec("name"@));
            &&& name == Some("read_file"@) ==> tool_call_action(call, ts) == seq![(
                1int,
                seq![text_or_empty(args, "file_path"@), tool_result_output(call)],
                None::<GeminiTokens>,
                ts,
            )]
            &&& (name == Some("write_file"@) || name == Some("create_file"@)) ==> tool_call_action(call, ts) == seq![(
                2int,
                seq![text_or_empty(args, "file_path"@), text_or_empty(args, "content"@)],
                None::<GeminiTokens>,
                ts,
            )]
            &&& (name == Some("edit_file"@) || name == Some("replace_in_file"@)) ==> tool_call_action(call, ts) == seq![(
                3int,
                seq![
                    text_or_empty(args, "file_path"@),
                    text_or_alias(args, "old_string"@, "old_text"@),
                    text_or_alias(args, "new_string"@, "new_text"@),
                ],
                None::<GeminiTokens>,
                ts,
            )]
            &&& (name == Some("run_command"@) || name == Some("execute_command"@) || name == Some("shell"@))
                ==> tool_call_action(call, ts) == seq![(
                4int,
                seq![text_or_alias(args, "command"@, "cmd"@), text_or_empty(args, "description"@)],
                None::<GeminiTokens>,
                ts,
            )]
            &&& (name != Some("read_file"@) && name != Some("write_file"@) && name != Some("create_file"@)
                && name != Some("edit_file"@) && name != Some("replace_in_file"@) && name != Some("run_command"@)
                && name != Some("execute_command"@) && name != Some("shell"@)) ==> tool_call_action(call, ts).len() == 0
        }),
{
    reveal_strlit("read_file");
    reveal_strlit("write_file");
    reveal_strlit("create_file");
    reveal_strlit("edit_file");
    reveal_strlit("replace_in_file");
    reveal_strlit("run_command");
    reveal_strlit("execute_command");
    reveal_strlit("shell");
    assert("read_file"@.len() == 9 && "read_file"@[0] == 'r');
    assert("write_file"@.len() == 10 && "write_file"@[0] == 'w');
    assert("create_file"@.len() == 11 && "create_file"@[0] == 'c');
    assert("edit_file"@.len() == 9 && "edit_file"@[0] == 'e');
    assert("replace_in_file"@.len() == 15 && "replace_in_file"@[0] == 'r');
    assert("run_command"@.len() == 11 && "run_command"@[0] == 'r');
    assert("execute_command"@.len() == 15 && "execute_command"@[0] == 'e');
    assert("shell"@.len() == 5 && "shell"@[0] == 's');
}

/// Law: a Gemini message with no token usage and a single tool call records exactly what that
/// call records, at the message's timestamp; a Gemini message with tokens and a model and no tool
/// call records exactly that model's usage; a message that is not Gemini's records nothing.
pub proof fn lemma_single_call_message(m: GeminiMessage, call: Json, ts: i64)
    ensures
        m.message_type@ == "gemini"@ && m.tokens is None && m.tool_calls@ == seq![call] ==> session_actions(seq![m], seq![ts])
            == tool_call_action(call, ts),
        m.message_type@ != "gemini"@ ==> session_actions(seq![m], seq![ts]).len() == 0,
        m.message_type@ == "gemini"@ && m.tool_calls@.len() == 0 && (m.tokens matches Some(t)) && (m.model matches Some(md))
            ==> session_actions(seq![m], seq![ts]) == seq![(0int, seq![m.model->0@], m.tokens, 0i64)],
{
    let ms = seq![m];
    let tss = seq![ts];
    assert(ms.drop_last() =~= Seq::<GeminiMessage>::empty());
    assert(tss.drop_last() =~= Seq::<i64>::empty());
    assert(session_actions(ms.drop_last(), tss.drop_last()) =~= Seq::empty());
    if m.message_type@ == "gemini"@ && m.tokens is None && m.tool_calls@ == seq![call] {
        let calls = m.tool_calls@;
        assert(calls.drop_last() =~= Seq::<Json>::empty());
        assert(tool_calls_actions(calls.drop_last(), ts) =~= Seq::empty());
        assert(tool_calls_actions(calls, ts) =~= tool_call_action(call, ts));
        assert(message_actions(m, ts) =~= tool_call_action(call, ts));
    }
    if m.message_type@ == "gemini"@ && m.tool_calls@.len() == 0 && m.tokens is Some && m.model is Some {
        assert(m.tool_calls@ =~= Seq::<Json>::empty());
        assert(tool_calls_actions(m.tool_calls@, ts) =~= Seq::empty());
        assert(message_actions(m, ts) =~= seq![(0int, seq![m.model->0@], m.tokens, 0i64)]);
    }
}

/// What a Gemini session amounts to: its latest timestamp and its actions in order.
#[derive(Debug)]
pub struct GeminiPlan {
    pub last_timestamp: i64,
    pub actions: Vec<GeminiAction>,
}

fn tool_call_to_action(call: &Json, ts: i64, out: &mut Vec<GeminiAction>)
    ensures
        final(out)@.map_values(|a: GeminiAction| action_view(a)) == old(out)@.map_values(|a: GeminiAction| action_view(a))
            + tool_call_action(*call, ts),
{
    let ghost before = out@;
    let name = match call.get("name") {
        Some(n) => match n.as_str() {
            Some(s) => s,
            None => {
                assert(out@.map_values(|a: GeminiAction| action_view(a)) =~= before.map_values(|a: GeminiAction| action_view(a)) + tool_call_action(*call, ts));
                return;
            },
        },
        None => {
            assert(out@.map_values(|a: GeminiAction| action_view(a)) =~= before.map_values(|a: GeminiAction| action_view(a)) + tool_call_action(*call, ts));
            return;
        },
    };
    let args = call.get("args");
    let action = if str_equal(name.as_str(), "read_file") {
        let file_path = text_member(args, "file_path");
        let content = extract_tool_result_output(call);
        Some(GeminiAction::Read { file_path, content, timestamp: ts })
    } else if str_equal(name.as_str(), "write_file") || str_equal(name.as_str(), "create_file") {
        let file_path = text_member(args, "file_path");
        let content = text_member(args, "content");
        Some(GeminiAction::Write { file_path, content, timestamp: ts })
    } else if str_equal(name.as_str(), "edit_file") || str_equal(name.as_str(), "replace_in_file") {
        let file_path = text_member(args, "file_path");
        let old_string = text_member_or_alias(args, "old_string", "old_text");
        let new_string = text_member_or_alias(args, "new_string", "new_text");
        Some(GeminiAction::Edit { file_path, old_string, new_string, timestamp: ts })
    } else if str_equal(name.as_str(), "run_command") || str_equal(name.as_str(), "execute_command") || str_equal(
        name.as_str(),
        "shell",
    ) {
        let command = text_member_or_alias(args, "command", "cmd");
        let description = text_member(args, "description");
        Some(GeminiAction::RunCommand { command, description, timestamp: ts })
    } else {
        None
    };
    match action {
        Some(a) => {
            out.push(a);
            assert(out@.map_values(|a: GeminiAction| action_view(a)) =~= before.map_values(|a: GeminiAction| action_view(a)) + tool_call_action(*call, ts));
        },
        None => {
            assert(out@.map_values(|a: GeminiAction| action_view(a)) =~= before.map_values(|a: GeminiAction| action_view(a)) + tool_call_action(*call, ts));
        },
    }
}

/// Goes through the messages of a Gemini session (`timestamps[i]` is the time of
/// `messages[i]`): the latest timestamp of any message (0 if none is later), and, for Gemini's
/// own messages only, their token usage and the file and command operations of their tool
/// calls, in order.
pub fn plan_gemini_session(messages: &Vec<GeminiMessage>, timestamps: &Vec<i64>) -> (r: GeminiPlan)
    requires
        messages@.len() == timestamps@.len(),
    ensures
        r.last_timestamp == latest_timestamp(timestamps@),
        r.actions@.map_values(|a: GeminiAction| action_view(a)) == session_actions(messages@, timestamps@),
{
    let mut last_timestamp: i64 = 0;
    let mut actions: Vec<GeminiAction> = Vec::new();
    let n = messages.len();
    assert(messages@.take(0) =~= Seq::<GeminiMessage>::empty());
    assert(timestamps@.take(0) =~= Seq::<i64>::empty());
    for i in 0..n
        invariant
            n == messages@.len(),
            n == timestamps@.len(),
            last_timestamp == latest_timestamp(timestamps@.take(i as int)),
            actions@.map_values(|a: GeminiAction| action_view(a)) == session_actions(messages@.take(i as int), timestamps@.take(i as int)),
    {
        let message = &messages[i];
        let ts = timestamps[i];
        assert(timestamps@.take(i + 1).drop_last() =~= timestamps@.take(i as int));
        assert(messages@.take(i + 1).drop_last() =~= messages@.take(i as int));
        if ts > last_timestamp {
            last_timestamp = ts;
        }
        let ghost before = actions@.map_values(|a: GeminiAction| action_view(a));
        if str_equal(message.message_type.as_str(), "gemini") {
            match (&message.tokens, &message.model) {
                (Some(tokens), Some(model)) => {
                    actions.push(GeminiAction::Usage { model: model.clone(), tokens: *tokens });
                },
                _ => {},
            }
            let ghost with_usage = actions@.map_values(|a: GeminiAction| action_view(a));
            let m = message.tool_calls.len();
            assert(message.tool_calls@.take(0) =~= Seq::<Json>::empty());
            for j in 0..m
                invariant
                    m == message.tool_calls@.len(),
                    actions@.map_values(|a: GeminiAction| action_view(a)) == with_usage + tool_calls_actions(
                        message.tool_calls@.take(j as int),
                        ts,
                    ),
            {
                tool_call_to_action(&message.tool_calls[j], ts, &mut actions);
                assert(message.tool_calls@.take(j + 1).drop_last() =~= message.tool_calls@.take(j as int));
                assert(actions@.map_values(|a: GeminiAction| action_view(a)) =~= with_usage + tool_calls_actions(
                    message.tool_calls@.take(j + 1),
                    ts,
                ));
            }
            assert(message.tool_calls@.take(m as int) =~= message.tool_calls@);
            assert(actions@.map_values(|a: GeminiAction| action_view(a)) =~= before + message_actions(*message, ts));
        } else {
            assert(message_actions(*message, ts) =~= Seq::empty());
            assert(actions@.map_values(|a: GeminiAction| action_view(a)) =~= before + message_actions(*message, ts));
        }
    }
    assert(messages@.take(n as int) =~= messages@);
    assert(timestamps@.take(n as int) =~= timestamps@);
    GeminiPlan { last_timestamp, actions }
}

/// The texts that message content made of an array of parts is joined from: the `text` of
/// each part that has one as text.
pub open spec fn part_texts(parts: Seq<Json>) -> Seq<Seq<char>>
    decreases parts.len(),
{
    if parts.len() == 0 {
        Seq::empty()
    } else {
        let prev = part_texts(parts.drop_last());
        match str_of(parts.last().get_spec("text"@)) {
            Some(t) => prev.push(t),
            None => prev,
        }
    }
}

/// Texts joined by `sep`.
pub open spec fn join(texts: Seq<Seq<char>>, sep: Seq<char>) -> Seq<char>
    decreases texts.len(),
{
    if texts.len() == 0 {
        Seq::empty()
    } else if texts.len() == 1 {
        texts[0]
    } else {
        join(texts.drop_last(), sep) + sep + texts.last()
    }
}

/// The content of a message as text: a string itself, the texts of an array of parts joined
/// by newlines, nothing for `null`, and any other value's own compact JSON text; `None` only where
/// that value holds a fraction, whose digits the library does not keep.
pub open spec fn content_text_spec(v: Json) -> Option<Seq<char>> {
    match v {
        Json::Str(s) => Some(s@),
        Json::Array(parts) => Some(join(part_texts(parts@), seq!['\n'])),
        Json::Null => Some(Seq::empty()),
        _ => json_text(v),
    }
}

/// Reads message content that is either a string or an array of `{text: "..."}` parts.
pub fn content_text(v: &Json) -> (r: Option<String>)
    ensures
        match r {
            Some(s) => content_text_spec(*v) == Some(s@),
            None => content_text_spec(*v) is None,
        },
{
    match v {
        Json::Str(s) => Some(s.clone()),
        Json::Array(parts) => {
            let mut out = String::new();
            let mut any = false;
            let n = parts.len();
            assert(parts@.take(0) =~= Seq::<Json>::empty());
            for i in 0..n
                invariant
                    n == parts@.len(),
                    any == (part_texts(parts@.take(i as int)).len() > 0),
                    out@ == join(part_texts(parts@.take(i as int)), seq!['\n']),
            {
                assert(parts@.take(i + 1).drop_last() =~= parts@.take(i as int));
                match parts[i].get("text") {
                    Some(t) => match t.as_str() {
                        Some(text) => {
                            let ghost prev = part_texts(parts@.take(i as int));
                            assert(part_texts(parts@.take(i + 1)) == prev.push(text@));
                            assert(prev.push(text@).drop_last() =~= prev);
                            if any {
                                proof {
                                    reveal_strlit("\n");
                                }
                                out.append("\n");
                            }
                            out.append(text.as_str());
                            any = true;
                            assert(out@ =~= join(part_texts(parts@.take(i + 1)), seq!['\n']));
                        },
                        None => {},
                    },
                    None => {},
                }
            }
            assert(parts@.take(n as int) =~= parts@);
            Some(out)
        },
        Json::Null => Some(String::new()),
        _ => to_json_text(v),
    }
}

} // verus!
