//! The card of a plain tool call (`function_call` / `custom_tool_call` that
//! is neither a sub-agent operation nor a code-mode script): the tool, its
//! call id and the input it shows, with the bookkeeping a later output and
//! later session polls rely on.
use vstd::prelude::*;
use crate::json::{json_text, Json};
use crate::shell::{
    addressed_command, annotate_shell_session_args, annotated_args, close_entry, entry_command,
    is_shell_session_tool,
    note_effect, note_shell_session_call, pure_poll, session_id_of, session_tool, PollOrigins,
    SessionTable, TextMap,
};
use crate::text::{decimal, with_number};
use crate::tool_io::{
    call_args, call_id_of, parse_codex_json_arg, preview_of, tool_call_id, tool_call_name, tool_name_of,
    value_to_preview,
};
use crate::transcript::{ContentBlock, MessageRole, UnifiedMessage};
use crate::views::{messages_view, BlockView, MessageView};

verus! {

/// The raw input of a call: its `arguments` (else `input`) as text.
pub open spec fn raw_input(p: Json) -> Option<Seq<char>> {
    preview_of(
        if p.field("arguments"@) is Some {
            p.field("arguments"@)
        } else {
            p.field("input"@)
        },
    )
}

/// The `cmd` an `exec_command` call runs.
pub open spec fn command_of(p: Json) -> Option<Seq<char>> {
    match call_args(p) {
        Some(a) => a.str_field("cmd"@),
        None => None,
    }
}

/// The input a plain call's card shows: for `exec_command` its command; for
/// `wait` / `write_stdin` its arguments annotated with the command of the
/// session they address, when that session is known; otherwise, and as the
/// fallback of both, its raw input.
pub open spec fn card_input(p: Json, sessions: SessionTable) -> Option<Seq<char>> {
    let name = tool_name_of(p);
    if name == "exec_command"@ {
        match command_of(p) {
            Some(c) => Some(c),
            None => raw_input(p),
        }
    } else if session_tool(name) {
        match call_args(p) {
            Some(a) => match addressed_command(a, sessions) {
                Some(c) => Some(json_text(annotated_args(a, c))),
                None => raw_input(p),
            },
            None => raw_input(p),
        }
    } else {
        raw_input(p)
    }
}

/// `after` is `before` with `value` recorded for `key`.
pub open spec fn recorded(before: TextMap, after: TextMap, key: Seq<char>, value: Seq<char>) -> bool {
    &&& after.lookup(key) == Some(value)
    &&& forall|k: Seq<char>| k != key ==> #[trigger] after.lookup(k) == before.lookup(k)
}

/// The tool a call names is remembered under its id.
pub open spec fn names_noted(p: Json, before: TextMap, after: TextMap) -> bool {
    match call_id_of(p) {
        Some(i) => recorded(before, after, i, tool_name_of(p)),
        None => after == before,
    }
}

/// The command an `exec_command` runs is remembered under its id.
pub open spec fn command_noted(p: Json, before: TextMap, after: TextMap) -> bool {
    match (call_id_of(p), command_of(p)) {
        (Some(i), Some(c)) => if tool_name_of(p) == "exec_command"@ {
            recorded(before, after, i, c)
        } else {
            after == before
        },
        _ => after == before,
    }
}

/// The card of a plain call at position `n`.
pub open spec fn tool_card(p: Json, n: nat, ts: i64, sessions: SessionTable) -> MessageView {
    MessageView {
        id: "tool-"@ + decimal(n),
        role: MessageRole::Assistant,
        content: seq![BlockView::ToolUse(call_id_of(p), tool_name_of(p), card_input(p, sessions), None, None)],
        timestamp: ts,
        usage: None,
        duration_ms: None,
        model: None,
        completed_at: Some(ts),
    }
}

fn raw_input_of(payload: &Json) -> (r: Option<String>)
    ensures
        crate::views::text_of(r) == raw_input(*payload),
{
    let v = match payload.get("arguments") {
        Some(a) => Some(a),
        None => payload.get("input"),
    };
    value_to_preview(v)
}

/// A plain tool call: a card holding the call, named `tool-<position>`.
/// The tool is remembered under the call id, and so is the command of an
/// `exec_command`, for the output that answers the call; a `wait` /
/// `write_stdin` is noted against the session it addresses (see
/// `note_shell_session_call`) before its input is annotated.
pub fn push_tool_call(
    messages: &mut Vec<UnifiedMessage>,
    payload: &Json,
    timestamp: i64,
    tool_names: &mut TextMap,
    commands: &mut TextMap,
    sessions: &mut SessionTable,
    poll_origins: &mut PollOrigins,
)
    requires
        old(messages)@.len() < u64::MAX,
    ensures
        names_noted(*payload, *old(tool_names), *final(tool_names)),
        command_noted(*payload, *old(commands), *final(commands)),
        session_tool(tool_name_of(*payload)) ==> note_effect(
            call_id_of(*payload),
            call_args(*payload),
            *old(sessions),
            *final(sessions),
            *old(poll_origins),
            *final(poll_origins),
        ),
        !session_tool(tool_name_of(*payload)) ==> *final(sessions) == *old(sessions) && *final(poll_origins)
            == *old(poll_origins),
        messages_view(final(messages)@) == messages_view(old(messages)@).push(
            tool_card(*payload, old(messages)@.len() as nat, timestamp, *final(sessions)),
        ),
{
    let tool_use_id = tool_call_id(payload);
    let name = tool_call_name(payload);
    proof {
        reveal_strlit("exec_command");
        reveal_strlit("wait");
        reveal_strlit("write_stdin");
        assert("exec_command"@.len() == 12 && "wait"@.len() == 4 && "write_stdin"@.len() == 11);
    }
    if let Some(id) = &tool_use_id {
        tool_names.insert(id.clone(), name.clone());
    }
    let is_exec = crate::text::str_eq(name.as_str(), "exec_command");
    let input_preview = if is_exec {
        let cmd = match parse_codex_json_arg(payload) {
            Some(a) => match a.value().get_str("cmd") {
                Some(c) => Some(c.to_owned()),
                None => None,
            },
            None => None,
        };
        if let (Some(id), Some(c)) = (&tool_use_id, &cmd) {
            commands.insert(id.clone(), c.clone());
        }
        match cmd {
            Some(c) => Some(c),
            None => raw_input_of(payload),
        }
    } else if is_shell_session_tool(name.as_str()) {
        let args = parse_codex_json_arg(payload);
        let id_ref: Option<&str> = match &tool_use_id {
            Some(i) => Some(i.as_str()),
            None => None,
        };
        let annotated = match &args {
            Some(a) => {
                note_shell_session_call(id_ref, Some(a.value()), sessions, poll_origins);
                annotate_shell_session_args(a.value(), sessions)
            },
            None => {
                note_shell_session_call(id_ref, None, sessions, poll_origins);
                None
            },
        };
        match annotated {
            Some(t) => Some(t),
            None => raw_input_of(payload),
        }
    } else {
        raw_input_of(payload)
    };
    let id = with_number("tool-", messages.len() as u64);
    let msg = UnifiedMessage {
        id,
        role: MessageRole::Assistant,
        content: vec![
            ContentBlock::ToolUse {
                tool_use_id,
                tool_name: name,
                input_preview,
                status: None,
                meta: None,
            },
        ],
        timestamp,
        usage: None,
        duration_ms: None,
        model: None,
        completed_at: Some(timestamp),
    };
    let ghost before = messages@;
    messages.push(msg);
    proof {
        assert(crate::views::blocks_view(msg.content@) =~= seq![crate::views::block_view(msg.content@[0])]);
        assert(messages_view(messages@) =~= messages_view(before).push(crate::views::message_view(msg)));
    }
}

/// Sessions and text maps by their lookups.
pub type SessionLookup = spec_fn(Seq<char>) -> Option<(Seq<char>, Option<Seq<char>>)>;

pub type TextLookup = spec_fn(Seq<char>) -> Option<Seq<char>>;

pub open spec fn session_lookup(s: SessionTable) -> SessionLookup {
    |k: Seq<char>| s.lookup(k)
}

pub open spec fn text_lookup(m: TextMap) -> TextLookup {
    |k: Seq<char>| m.lookup(k)
}

/// `f` with `value` recorded for `key`.
pub open spec fn with_text(f: TextLookup, key: Seq<char>, value: Seq<char>) -> TextLookup {
    |k: Seq<char>| if k == key {
        Some(value)
    } else {
        f(k)
    }
}

/// The command of the session `args` address, by the sessions' lookup.
pub open spec fn command_addressed(args: Json, sessions: SessionLookup) -> Option<Seq<char>> {
    if args is Object && session_id_of(args) is Some && sessions(session_id_of(args)->0) is Some {
        Some(entry_command(sessions(session_id_of(args)->0)->0))
    } else {
        None
    }
}

/// The card a session's output still folds into, by the sessions' lookup.
pub open spec fn origin_of_call(args: Option<Json>, sessions: SessionLookup) -> Option<Seq<char>> {
    match args {
        Some(a) => match session_id_of(a) {
            Some(sid) => match sessions(sid) {
                Some(entry) => entry.1,
                None => None,
            },
            None => None,
        },
        None => None,
    }
}

/// The sessions after a session tool call: an action (keys sent, session
/// ended) stops the folding into its card for every id of the session.
pub open spec fn sessions_after_call(p: Json, sessions: SessionLookup) -> SessionLookup {
    match origin_of_call(call_args(p), sessions) {
        Some(o) => if pure_poll(call_args(p)->0) {
            sessions
        } else {
            |k: Seq<char>| close_entry(sessions(k), o)
        },
        None => sessions,
    }
}

/// The polls after a session tool call: a pure poll with an id is recorded
/// to fold into its session's card.
pub open spec fn polls_after_call(p: Json, sessions: SessionLookup, polls: TextLookup) -> TextLookup {
    match origin_of_call(call_args(p), sessions) {
        Some(o) => if pure_poll(call_args(p)->0) {
            match call_id_of(p) {
                Some(i) => with_text(polls, i, o),
                None => polls,
            }
        } else {
            polls
        },
        None => polls,
    }
}

/// The input a plain call's card shows, by the sessions' lookup (see
/// `card_input`).
pub open spec fn card_input_by(p: Json, sessions: SessionLookup) -> Option<Seq<char>> {
    let name = tool_name_of(p);
    if name == "exec_command"@ {
        match command_of(p) {
            Some(c) => Some(c),
            None => raw_input(p),
        }
    } else if session_tool(name) {
        match call_args(p) {
            Some(a) => match command_addressed(a, sessions) {
                Some(c) => Some(json_text(annotated_args(a, c))),
                None => raw_input(p),
            },
            None => raw_input(p),
        }
    } else {
        raw_input(p)
    }
}

/// The card of a plain call at position `n`, by the sessions' lookup.
pub open spec fn card_by(p: Json, n: nat, ts: i64, sessions: SessionLookup) -> MessageView {
    MessageView {
        id: "tool-"@ + decimal(n),
        role: MessageRole::Assistant,
        content: seq![BlockView::ToolUse(call_id_of(p), tool_name_of(p), card_input_by(p, sessions), None, None)],
        timestamp: ts,
        usage: None,
        duration_ms: None,
        model: None,
        completed_at: Some(ts),
    }
}

/// The tool names after a call: its tool is recorded under its id.
pub open spec fn names_after_call(p: Json, names: TextLookup) -> TextLookup {
    match call_id_of(p) {
        Some(i) => with_text(names, i, tool_name_of(p)),
        None => names,
    }
}

/// The commands after a call: an `exec_command`'s command is recorded
/// under its id.
pub open spec fn commands_after_call(p: Json, commands: TextLookup) -> TextLookup {
    match (call_id_of(p), command_of(p)) {
        (Some(i), Some(c)) => if tool_name_of(p) == "exec_command"@ {
            with_text(commands, i, c)
        } else {
            commands
        },
        _ => commands,
    }
}

/// `push_tool_call` read by the lookups of the tables it touches.
pub proof fn lemma_tool_call_by_lookup(
    p: Json,
    names0: TextMap,
    names1: TextMap,
    commands0: TextMap,
    commands1: TextMap,
    s0: SessionTable,
    s1: SessionTable,
    p0: PollOrigins,
    p1: PollOrigins,
)
    requires
        names_noted(p, names0, names1),
        command_noted(p, commands0, commands1),
        session_tool(tool_name_of(p)) ==> note_effect(call_id_of(p), call_args(p), s0, s1, p0, p1),
        !session_tool(tool_name_of(p)) ==> s1 == s0 && p1 == p0,
    ensures
        text_lookup(names1) == names_after_call(p, text_lookup(names0)),
        text_lookup(commands1) == commands_after_call(p, text_lookup(commands0)),
        session_tool(tool_name_of(p)) ==> session_lookup(s1) == sessions_after_call(p, session_lookup(s0)),
        session_tool(tool_name_of(p)) ==> text_lookup(p1) == polls_after_call(p, session_lookup(s0), text_lookup(p0)),
        !session_tool(tool_name_of(p)) ==> session_lookup(s1) == session_lookup(s0) && text_lookup(p1)
            == text_lookup(p0),
        card_input(p, s1) == card_input_by(p, session_lookup(s1)),
{
    assert(text_lookup(names1) =~= names_after_call(p, text_lookup(names0)));
    assert(text_lookup(commands1) =~= commands_after_call(p, text_lookup(commands0)));
    if session_tool(tool_name_of(p)) {
        assert(origin_of_call(call_args(p), session_lookup(s0)) == crate::shell::call_origin(call_args(p), s0));
        assert(session_lookup(s1) =~= sessions_after_call(p, session_lookup(s0)));
        assert(text_lookup(p1) =~= polls_after_call(p, session_lookup(s0), text_lookup(p0)));
    }
    match call_args(p) {
        Some(a) => {
            assert(command_addressed(a, session_lookup(s1)) == addressed_command(a, s1));
        },
        None => {},
    }
}

} // verus!
