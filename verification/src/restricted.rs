//! Rules of the restricted, read-only Codex sessions that run one
//! instruction (prompt optimization, conversation relay summaries): the
//! readiness protocol that fails closed until read-only mode is confirmed,
//! the configuration allowlist, and the reading of the agent's reply.
use vstd::prelude::*;
use crate::paths::{
    home_dir, join_path, joined_under, relative_text, single_component, verbatim_prefix,
};
use crate::codex::resolve_codex_home_dir;
use crate::text::{
    chars_of, ends_with, ends_with_chars, slice_chars, starts_with, starts_with_chars, string_of,
    trim, trim_chars, trim_str,
};

verus! {

/// Why a restricted Codex request ended without a result.
#[derive(Debug, Clone, PartialEq, Eq)]
pub enum RestrictedCodexError {
    Cancelled,
    TimedOut,
    Failed(String),
}

/// The text of an error message.
pub open spec fn error_text(e: RestrictedCodexError) -> Seq<char> {
    match e {
        RestrictedCodexError::Cancelled => "restricted Codex request was cancelled"@,
        RestrictedCodexError::TimedOut => "restricted Codex request timed out"@,
        RestrictedCodexError::Failed(m) => m@,
    }
}

impl RestrictedCodexError {
    /// The message shown for the error.
    pub fn message(&self) -> (r: String)
        ensures
            r@ == error_text(*self),
    {
        match self {
            RestrictedCodexError::Cancelled => "restricted Codex request was cancelled".to_owned(),
            RestrictedCodexError::TimedOut => "restricted Codex request timed out".to_owned(),
            RestrictedCodexError::Failed(m) => m.clone(),
        }
    }
}

/// `a` followed by `b`.
pub fn concat(a: &str, b: &str) -> (r: String)
    ensures
        r@ == a@ + b@,
{
    let mut v = chars_of(a);
    let mut w = chars_of(b);
    v.append(&mut w);
    string_of(v.as_slice())
}

pub open spec fn operation_title_of(operation: Seq<char>) -> Seq<char> {
    if operation == "prompt-optimization"@ {
        "Prompt optimization"@
    } else if operation == "conversation-relay-summary"@ {
        "Conversation relay summary"@
    } else {
        "Restricted Codex request"@
    }
}

pub open spec fn operation_description_of(operation: Seq<char>) -> Seq<char> {
    if operation == "prompt-optimization"@ {
        "prompt optimization"@
    } else if operation == "conversation-relay-summary"@ {
        "conversation relay summary"@
    } else {
        "restricted Codex request"@
    }
}

/// The title of an operation, as messages name it.
pub fn operation_title(operation: &str) -> (r: &'static str)
    ensures
        r@ == operation_title_of(operation@),
{
    if crate::text::str_eq(operation, "prompt-optimization") {
        "Prompt optimization"
    } else if crate::text::str_eq(operation, "conversation-relay-summary") {
        "Conversation relay summary"
    } else {
        "Restricted Codex request"
    }
}

/// The description of an operation, as messages name it.
pub fn operation_description(operation: &str) -> (r: &'static str)
    ensures
        r@ == operation_description_of(operation@),
{
    if crate::text::str_eq(operation, "prompt-optimization") {
        "prompt optimization"
    } else if crate::text::str_eq(operation, "conversation-relay-summary") {
        "conversation relay summary"
    } else {
        "restricted Codex request"
    }
}

/// What the session's mode says of its readiness: nothing until its mode
/// selectors are ready, then success only for `read-only`, and a failure
/// otherwise.
pub open spec fn session_mode_verdict(
    operation: Seq<char>,
    selectors_ready: bool,
    current_mode: Option<Seq<char>>,
) -> Option<Result<(), Seq<char>>> {
    if !selectors_ready {
        None
    } else {
        match current_mode {
            Some(m) => if m == "read-only"@ {
                Some(Ok(()))
            } else {
                Some(Err(operation_title_of(operation) + " agent failed to enter read-only mode"@))
            },
            None => Some(Err(operation_title_of(operation) + " agent did not advertise read-only mode"@)),
        }
    }
}

pub open spec fn verdict_view(v: Option<Result<(), RestrictedCodexError>>) -> Option<Result<(), Seq<char>>> {
    match v {
        None => None,
        Some(Ok(())) => Some(Ok(())),
        Some(Err(e)) => Some(Err(error_text(e))),
    }
}

/// Whether a restricted session may be prompted: `None` while its mode
/// selectors are not ready, then `Ok` only once it reports `read-only`.
pub fn restricted_session_mode(
    operation: &str,
    selectors_ready: bool,
    current_mode: Option<&str>,
) -> (r: Option<Result<(), RestrictedCodexError>>)
    ensures
        verdict_view(r) == session_mode_verdict(
            operation@,
            selectors_ready,
            match current_mode {
                Some(m) => Some(m@),
                None => None,
            },
        ),
        r matches Some(Err(e)) ==> e is Failed,
{
    if !selectors_ready {
        return None;
    }
    let title = operation_title(operation);
    match current_mode {
        Some(m) => if crate::text::str_eq(m, "read-only") {
            Some(Ok(()))
        } else {
            Some(Err(RestrictedCodexError::Failed(concat(title, " agent failed to enter read-only mode"))))
        },
        None => Some(Err(RestrictedCodexError::Failed(concat(title, " agent did not advertise read-only mode")))),
    }
}

/// Leading characters other than line breaks removed (the rest of a fence's
/// opening line).
pub open spec fn skip_line_rest(s: Seq<char>) -> Seq<char>
    decreases s.len(),
{
    if s.len() > 0 && s[0] != '\n' && s[0] != '\r' {
        skip_line_rest(s.drop_first())
    } else {
        s
    }
}

/// Leading line breaks removed.
pub open spec fn skip_line_breaks(s: Seq<char>) -> Seq<char>
    decreases s.len(),
{
    if s.len() > 0 && (s[0] == '\n' || s[0] == '\r') {
        skip_line_breaks(s.drop_first())
    } else {
        s
    }
}

/// The body of a Markdown fence: the opening line and the closing backticks
/// removed, then trimmed.
pub open spec fn fence_body(t: Seq<char>) -> Seq<char> {
    let a = skip_line_breaks(skip_line_rest(t.subrange(3, t.len() as int)));
    let b = if ends_with(a, "```"@) {
        a.subrange(0, a.len() - 3)
    } else {
        a
    };
    trim(b)
}

/// The agent's reply, trimmed; a prompt optimization wrapped in one outer
/// Markdown fence is unwrapped to the fence's body.
pub open spec fn normalized_output(operation: Seq<char>, raw: Seq<char>) -> Seq<char> {
    let t = trim(raw);
    if operation != "prompt-optimization"@ || !starts_with(t, "```"@) || !ends_with(t, "```"@) {
        t
    } else {
        fence_body(t)
    }
}

fn skip_while_line_rest(v: &Vec<char>, from: usize) -> (r: usize)
    requires
        from <= v@.len(),
    ensures
        from <= r <= v@.len(),
        skip_line_rest(v@.subrange(from as int, v@.len() as int)) == v@.subrange(r as int, v@.len() as int),
{
    let mut i = from;
    while i < v.len() && v[i] != '\n' && v[i] != '\r'
        invariant
            from <= i <= v@.len(),
            skip_line_rest(v@.subrange(from as int, v@.len() as int)) == skip_line_rest(
                v@.subrange(i as int, v@.len() as int),
            ),
        decreases v.len() - i,
    {
        proof {
            assert(v@.subrange(i as int, v@.len() as int).drop_first() =~= v@.subrange(
                i + 1,
                v@.len() as int,
            ));
        }
        i += 1;
    }
    i
}

fn skip_while_line_break(v: &Vec<char>, from: usize) -> (r: usize)
    requires
        from <= v@.len(),
    ensures
        from <= r <= v@.len(),
        skip_line_breaks(v@.subrange(from as int, v@.len() as int)) == v@.subrange(r as int, v@.len() as int),
{
    let mut i = from;
    while i < v.len() && (v[i] == '\n' || v[i] == '\r')
        invariant
            from <= i <= v@.len(),
            skip_line_breaks(v@.subrange(from as int, v@.len() as int)) == skip_line_breaks(
                v@.subrange(i as int, v@.len() as int),
            ),
        decreases v.len() - i,
    {
        proof {
            assert(v@.subrange(i as int, v@.len() as int).drop_first() =~= v@.subrange(
                i + 1,
                v@.len() as int,
            ));
        }
        i += 1;
    }
    i
}

/// The reply of a restricted session as the caller gets it: trimmed, and for
/// a prompt optimization wrapped in one outer Markdown fence, the fence's
/// body.
pub fn normalize_restricted_codex_output(operation: &str, raw: &str) -> (r: String)
    ensures
        r@ == normalized_output(operation@, raw@),
{
    let t = trim_chars(chars_of(raw).as_slice());
    let fence = chars_of("```");
    proof {
        reveal_strlit("```");
    }
    if !crate::text::str_eq(operation, "prompt-optimization") || !starts_with_chars(
        t.as_slice(),
        fence.as_slice(),
    ) || !ends_with_chars(t.as_slice(), fence.as_slice()) {
        return string_of(t.as_slice());
    }
    let a = skip_while_line_rest(&t, 3);
    let b = skip_while_line_break(&t, a);
    proof {
        assert(t@.subrange(a as int, t@.len() as int) =~= skip_line_rest(t@.subrange(3, t@.len() as int)));
    }
    let rest = slice_chars(t.as_slice(), b, t.len());
    let body = if ends_with_chars(rest.as_slice(), fence.as_slice()) {
        slice_chars(rest.as_slice(), 0, rest.len() - 3)
    } else {
        rest
    };
    let out = trim_chars(body.as_slice());
    string_of(out.as_slice())
}

/// The reply worth returning: the trimmed raw reply, provided its
/// normalized form is not empty.
pub open spec fn usable_output(operation: Seq<char>, raw: Seq<char>) -> Option<Seq<char>> {
    if normalized_output(operation, raw).len() > 0 {
        Some(trim(raw))
    } else {
        None
    }
}

pub fn usable_assistant_output(operation: &str, raw: &str) -> (r: Option<String>)
    ensures
        match r {
            Some(t) => usable_output(operation@, raw@) == Some(t@),
            None => usable_output(operation@, raw@) is None,
        },
{
    let normalized = normalize_restricted_codex_output(operation, raw);
    if normalized.as_str().is_empty() {
        None
    } else {
        Some(trim_str(raw))
    }
}

/// How the agent connection stands.
#[derive(Debug, Clone, Copy, PartialEq, Eq, Structural)]
pub enum ConnectionHealth {
    /// Connecting, connected or prompting.
    Live,
    /// The connection reported an error.
    Failed,
    /// The connection is gone.
    Disconnected,
}

/// What the restricted session reports at one poll.
pub struct SessionSnapshot {
    pub status: ConnectionHealth,
    /// The message of the last error the connection reported.
    pub last_error: Option<String>,
    pub selectors_ready: bool,
    pub current_mode: Option<String>,
    pub turn_in_flight: bool,
    pub last_turn_ended_abnormally: bool,
    pub last_assistant_text: Option<String>,
}

/// Where the restricted run stands.
#[derive(Debug, Clone, Copy, PartialEq, Eq, Structural)]
pub enum RestrictedPhase {
    /// Waiting for the session to confirm read-only mode.
    AwaitingReadOnly,
    /// The instruction was sent; waiting for the reply.
    AwaitingReply,
}

/// What the runner does after a poll.
pub enum RestrictedStep {
    /// Poll again after a short pause.
    Wait,
    /// Send the instruction, then wait for the reply.
    SendPrompt,
    /// The run is over.
    Finish(Result<String, RestrictedCodexError>),
}

/// A step as plain values: `None` for waiting, `Some(None)` for sending the
/// prompt, `Some(Some(Ok(text)))` for the reply, `Some(Some(Err(message)))`
/// for a failure.
pub open spec fn step_view(s: RestrictedStep) -> Option<Option<Result<Seq<char>, Seq<char>>>> {
    match s {
        RestrictedStep::Wait => None,
        RestrictedStep::SendPrompt => Some(None),
        RestrictedStep::Finish(Ok(t)) => Some(Some(Ok(t@))),
        RestrictedStep::Finish(Err(e)) => Some(Some(Err(error_text(e)))),
    }
}

pub open spec fn opt_view(o: Option<String>) -> Option<Seq<char>> {
    match o {
        Some(s) => Some(s@),
        None => None,
    }
}

/// The failure message of a connection in error: its last error, or
/// "<title> agent failed".
pub open spec fn failure_message(operation: Seq<char>, last_error: Option<Seq<char>>) -> Seq<char> {
    match last_error {
        Some(m) => m,
        None => operation_title_of(operation) + " agent failed"@,
    }
}

/// The next step of a restricted run, given the phase and the session's
/// report. Before the prompt: a failed or vanished connection fails the run,
/// and the prompt is sent only once read-only mode is confirmed. After it:
/// nothing is decided while the turn is in flight; then an error or an
/// abnormal end fails the run, and a usable reply ends it.
pub open spec fn session_step(
    operation: Seq<char>,
    phase: RestrictedPhase,
    snap: SessionSnapshot,
) -> Option<Option<Result<Seq<char>, Seq<char>>>> {
    match phase {
        RestrictedPhase::AwaitingReadOnly => if snap.status == ConnectionHealth::Failed {
            Some(Some(Err(failure_message(operation, opt_view(snap.last_error)))))
        } else if snap.status == ConnectionHealth::Disconnected {
            Some(Some(Err(operation_title_of(operation) + " agent disconnected"@)))
        } else {
            match session_mode_verdict(operation, snap.selectors_ready, opt_view(snap.current_mode)) {
                None => None,
                Some(Ok(())) => Some(None),
                Some(Err(m)) => Some(Some(Err(m))),
            }
        },
        RestrictedPhase::AwaitingReply => if snap.turn_in_flight {
            None
        } else if snap.status == ConnectionHealth::Failed {
            Some(Some(Err(failure_message(operation, opt_view(snap.last_error)))))
        } else if snap.last_turn_ended_abnormally {
            Some(Some(Err(operation_title_of(operation) + " agent stopped before completing"@)))
        } else {
            match opt_view(snap.last_assistant_text) {
                Some(t) => match usable_output(operation, t) {
                    Some(u) => Some(Some(Ok(u))),
                    None => None,
                },
                None => None,
            }
        },
    }
}

fn failure(operation: &str, last_error: &Option<String>) -> (r: RestrictedCodexError)
    ensures
        r is Failed,
        error_text(r) == failure_message(operation@, opt_view(*last_error)),
{
    match last_error {
        Some(m) => RestrictedCodexError::Failed(m.clone()),
        None => RestrictedCodexError::Failed(concat(operation_title(operation), " agent failed")),
    }
}

/// Decides what a restricted run does after polling its session.
pub fn restricted_session_step(
    operation: &str,
    phase: RestrictedPhase,
    snapshot: &SessionSnapshot,
) -> (r: RestrictedStep)
    ensures
        step_view(r) == session_step(operation@, phase, *snapshot),
        r matches RestrictedStep::Finish(Err(e)) ==> e is Failed,
{
    match phase {
        RestrictedPhase::AwaitingReadOnly => {
            if snapshot.status == ConnectionHealth::Failed {
                return RestrictedStep::Finish(Err(failure(operation, &snapshot.last_error)));
            }
            if snapshot.status == ConnectionHealth::Disconnected {
                return RestrictedStep::Finish(
                    Err(RestrictedCodexError::Failed(concat(operation_title(operation), " agent disconnected"))),
                );
            }
            let mode = match &snapshot.current_mode {
                Some(m) => Some(m.as_str()),
                None => None,
            };
            match restricted_session_mode(operation, snapshot.selectors_ready, mode) {
                None => RestrictedStep::Wait,
                Some(Ok(())) => RestrictedStep::SendPrompt,
                Some(Err(e)) => RestrictedStep::Finish(Err(e)),
            }
        },
        RestrictedPhase::AwaitingReply => {
            if snapshot.turn_in_flight {
                return RestrictedStep::Wait;
            }
            if snapshot.status == ConnectionHealth::Failed {
                return RestrictedStep::Finish(Err(failure(operation, &snapshot.last_error)));
            }
            if snapshot.last_turn_ended_abnormally {
                return RestrictedStep::Finish(
                    Err(
                        RestrictedCodexError::Failed(
                            concat(operation_title(operation), " agent stopped before completing"),
                        ),
                    ),
                );
            }
            match &snapshot.last_assistant_text {
                Some(t) => match usable_assistant_output(operation, t.as_str()) {
                    Some(u) => RestrictedStep::Finish(Ok(u)),
                    None => RestrictedStep::Wait,
                },
                None => RestrictedStep::Wait,
            }
        },
    }
}

/// The session fails closed: the instruction is sent only from the
/// read-only wait, on a live connection whose mode selectors are ready and
/// report `read-only`; and a reply is returned only after the turn ended
/// normally on a connection not in error, as the trimmed reply whose
/// normalized form is not empty.
pub proof fn law_restricted_session_fails_closed(
    operation: Seq<char>,
    phase: RestrictedPhase,
    snap: SessionSnapshot,
)
    ensures
        session_step(operation, phase, snap) == Some(None::<Result<Seq<char>, Seq<char>>>) ==> (
        phase == RestrictedPhase::AwaitingReadOnly && snap.status == ConnectionHealth::Live
            && snap.selectors_ready && opt_view(snap.current_mode) == Some("read-only"@)),
        session_step(operation, phase, snap) matches Some(Some(Ok(t))) ==> (phase
            == RestrictedPhase::AwaitingReply && !snap.turn_in_flight && snap.status
            != ConnectionHealth::Failed && !snap.last_turn_ended_abnormally && snap.last_assistant_text
            is Some && t == trim(snap.last_assistant_text->0@) && normalized_output(
            operation,
            snap.last_assistant_text->0@,
        ).len() > 0),
{
}

/// How a restricted run ends: cancellation wins; otherwise the run's own
/// result, or `TimedOut` when it did not finish in time (`None`).
pub fn restricted_outcome(
    cancelled: bool,
    run: Option<Result<String, RestrictedCodexError>>,
) -> (r: Result<String, RestrictedCodexError>)
    ensures
        cancelled ==> r == Err::<String, RestrictedCodexError>(RestrictedCodexError::Cancelled),
        !cancelled && run is None ==> r == Err::<String, RestrictedCodexError>(RestrictedCodexError::TimedOut),
        !cancelled && run is Some ==> r == run->0,
{
    if cancelled {
        return Err(RestrictedCodexError::Cancelled);
    }
    match run {
        Some(result) => result,
        None => Err(RestrictedCodexError::TimedOut),
    }
}

#[verifier::external_type_specification]
#[verifier::external_body]
pub struct ExTomlValue(toml::Value);

/// The top-level keys of a TOML document as `str::parse::<toml::Value>`
/// reads it: `None` when the text is not TOML, `Some(None)` when its root is
/// not a table, and the keys of the root table otherwise.
pub uninterp spec fn toml_root_keys(text: Seq<char>) -> Option<Option<Seq<Seq<char>>>>;

pub open spec fn entry_keys(entries: Seq<(String, toml::Value)>) -> Seq<Seq<char>> {
    entries.map_values(|e: (String, toml::Value)| e.0@)
}

/// `str::parse::<toml::Value>` and `Value::as_table`: the entries of the root
/// table, each value as parsed, or `None` when the root is not a table. The
/// root table is a `toml::map::Map`, so no key occurs twice. On an error,
/// the error's text.
#[verifier::external_body]
fn parse_toml_root(raw: &str) -> (r: Result<Option<Vec<(String, toml::Value)>>, String>)
    ensures
        match r {
            Err(_) => toml_root_keys(raw@) is None,
            Ok(None) => toml_root_keys(raw@) == Some(None::<Seq<Seq<char>>>),
            Ok(Some(entries)) => toml_root_keys(raw@) == Some(Some(entry_keys(entries@))),
        },
        r matches Ok(Some(entries)) ==> entry_keys(entries@).no_duplicates(),
{
    match raw.parse::<toml::Value>() {
        Ok(toml::Value::Table(map)) => Ok(Some(map.into_iter().collect())),
        Ok(_) => Ok(None),
        Err(e) => Err(e.to_string()),
    }
}

/// `toml::Value::clone`.
#[verifier::external_body]
fn clone_toml(v: &toml::Value) -> (r: toml::Value)
    ensures
        r == *v,
{
    v.clone()
}

/// A value of the restricted configuration: one kept from the user's
/// configuration, or a string the restriction sets.
pub enum ConfigValue {
    Kept(toml::Value),
    Text(String),
}

/// The string held under `key` in the root table of the TOML document
/// `text`, as `str::parse::<toml::Value>` reads it; `None` when the text is
/// not TOML, its root is not a table, or the value there is no string.
pub uninterp spec fn toml_root_string(text: Seq<char>, key: Seq<char>) -> Option<Seq<char>>;

/// The keys of `entries`.
pub open spec fn config_keys(entries: Seq<(String, ConfigValue)>) -> Seq<Seq<char>> {
    entries.map_values(|e: (String, ConfigValue)| e.0@)
}

/// Renders a table with `toml::to_string_pretty`; each value is the kept
/// TOML value or a TOML string (`Map::insert`, so a later entry under a key
/// replaces an earlier one). On an error, the error's text.
///
/// Stated of the text: read back as TOML, its root table has exactly the
/// keys of the entries, and a string entry that no later entry replaces
/// reads back as that string. How kept values other than strings are
/// written is not stated.
///
/// The rendering succeeds: `toml`'s serializer fails only on what TOML
/// cannot hold (`None`, unit values, enum variants, keys that are not
/// strings), and a table of `toml::Value`s holds none of these.
#[verifier::external_body]
fn render_toml_table(entries: Vec<(String, ConfigValue)>) -> (r: Result<String, String>)
    ensures
        r is Ok,
        r matches Ok(t) ==> toml_root_keys(t@) matches Some(Some(ks)) && forall|k: Seq<char>|
            #[trigger] ks.contains(k) <==> config_keys(entries@).contains(k),
        r matches Ok(t) ==> forall|i: int|
            0 <= i < entries@.len() && (forall|j: int| i < j < entries@.len() ==> entries@[j].0@ != entries@[i].0@)
                ==> (#[trigger] entries@[i].1 matches ConfigValue::Text(s) ==> toml_root_string(
                t@,
                entries@[i].0@,
            ) == Some(s@)),
{
    let mut table = toml::map::Map::new();
    for (key, value) in entries {
        let value = match value {
            ConfigValue::Kept(v) => v,
            ConfigValue::Text(s) => toml::Value::String(s),
        };
        table.insert(key, value);
    }
    toml::to_string_pretty(&toml::Value::Table(table)).map_err(|e| e.to_string())
}

/// The user configuration keys a restricted session keeps: model selection
/// and provider transport only.
pub open spec fn restricted_config_keys() -> Seq<Seq<char>> {
    seq![
        "model"@,
        "model_provider"@,
        "model_reasoning_effort"@,
        "model_reasoning_summary"@,
        "model_verbosity"@,
        "service_tier"@,
        "personality"@,
        "preferred_auth_method"@,
        "chatgpt_base_url"@,
        "model_providers"@,
    ]
}

/// The value of the first entry under `key`.
pub open spec fn first_value(entries: Seq<(String, toml::Value)>, key: Seq<char>) -> Option<toml::Value>
    decreases entries.len(),
{
    if entries.len() == 0 {
        None
    } else if entries[0].0@ == key {
        Some(entries[0].1)
    } else {
        first_value(entries.drop_first(), key)
    }
}

/// For each of `keys` in order, the key and its value when `entries` has it.
pub open spec fn kept_entries(entries: Seq<(String, toml::Value)>, keys: Seq<Seq<char>>) -> Seq<(Seq<char>, toml::Value)>
    decreases keys.len(),
{
    if keys.len() == 0 {
        Seq::empty()
    } else {
        let prev = kept_entries(entries, keys.drop_last());
        match first_value(entries, keys.last()) {
            Some(v) => prev.push((keys.last(), v)),
            None => prev,
        }
    }
}

/// `r` is the restricted configuration of `entries`: the allowlisted entries
/// in allowlist order, then `approval_policy = "never"` and
/// `sandbox_mode = "read-only"`.
pub open spec fn is_restricted_config(r: Seq<(String, ConfigValue)>, entries: Seq<(String, toml::Value)>) -> bool {
    let kept = kept_entries(entries, restricted_config_keys());
    let n = kept.len() as int;
    &&& r.len() == n + 2
    &&& forall|i: int| 0 <= i < n ==> (#[trigger] r[i]).0@ == kept[i].0 && r[i].1 == ConfigValue::Kept(kept[i].1)
    &&& r[n].0@ == "approval_policy"@ && (r[n].1 matches ConfigValue::Text(t) && t@ == "never"@)
    &&& r[n + 1].0@ == "sandbox_mode"@ && (r[n + 1].1 matches ConfigValue::Text(t) && t@ == "read-only"@)
}

fn find_entry(entries: &Vec<(String, toml::Value)>, key: &str) -> (r: Option<usize>)
    ensures
        match r {
            Some(i) => i < entries@.len() && first_value(entries@, key@) == Some(entries@[i as int].1),
            None => first_value(entries@, key@) is None,
        },
{
    let mut i: usize = 0;
    proof {
        assert(entries@.skip(0) =~= entries@);
    }
    while i < entries.len()
        invariant
            i <= entries@.len(),
            first_value(entries@, key@) == first_value(entries@.skip(i as int), key@),
        decreases entries.len() - i,
    {
        proof {
            assert(entries@.skip(i as int).drop_first() =~= entries@.skip(i + 1));
            assert(entries@.skip(i as int)[0] == entries@[i as int]);
        }
        if crate::text::str_eq(entries[i].0.as_str(), key) {
            return Some(i);
        }
        i += 1;
    }
    None
}

/// The configuration a restricted session runs with: of the user's
/// top-level entries only the allowlisted ones, in allowlist order, then
/// `approval_policy = "never"` and `sandbox_mode = "read-only"`. Tools,
/// hooks, skills, project trust and every other capability are left out.
pub fn restricted_config_entries(entries: &Vec<(String, toml::Value)>) -> (r: Vec<(String, ConfigValue)>)
    ensures
        is_restricted_config(r@, entries@),
{
    let keys: Vec<&str> = vec![
        "model",
        "model_provider",
        "model_reasoning_effort",
        "model_reasoning_summary",
        "model_verbosity",
        "service_tier",
        "personality",
        "preferred_auth_method",
        "chatgpt_base_url",
        "model_providers",
    ];
    proof {
        assert(keys@.map_values(|k: &str| k@) =~= restricted_config_keys());
    }
    let mut out: Vec<(String, ConfigValue)> = Vec::new();
    let mut j: usize = 0;
    while j < keys.len()
        invariant
            j <= keys@.len(),
            keys@.map_values(|k: &str| k@) == restricted_config_keys(),
            ({
                let kept = kept_entries(entries@, restricted_config_keys().subrange(0, j as int));
                &&& out@.len() == kept.len()
                &&& forall|i: int| 0 <= i < kept.len() ==> (#[trigger] out@[i]).0@ == kept[i].0
                    && out@[i].1 == ConfigValue::Kept(kept[i].1)
            }),
        decreases keys.len() - j,
    {
        let key = keys[j];
        let ghost all = restricted_config_keys();
        proof {
            assert(all.subrange(0, j + 1).drop_last() =~= all.subrange(0, j as int));
            assert(all.subrange(0, j + 1).last() == key@);
        }
        match find_entry(entries, key) {
            Some(i) => {
                let v = clone_toml(&entries[i].1);
                out.push((key.to_owned(), ConfigValue::Kept(v)));
            },
            None => {},
        }
        j += 1;
    }
    proof {
        assert(restricted_config_keys().subrange(0, 10) =~= restricted_config_keys());
    }
    out.push(("approval_policy".to_owned(), ConfigValue::Text("never".to_owned())));
    out.push(("sandbox_mode".to_owned(), ConfigValue::Text("read-only".to_owned())));
    out
}

proof fn lemma_kept_keys_allowed(entries: Seq<(String, toml::Value)>, keys: Seq<Seq<char>>)
    ensures
        forall|i: int| 0 <= i < kept_entries(entries, keys).len() ==> keys.contains(
            #[trigger] kept_entries(entries, keys)[i].0,
        ),
        kept_entries(entries, keys).len() <= keys.len(),
    decreases keys.len(),
{
    if keys.len() > 0 {
        lemma_kept_keys_allowed(entries, keys.drop_last());
        let prev = kept_entries(entries, keys.drop_last());
        assert forall|i: int| 0 <= i < kept_entries(entries, keys).len() implies keys.contains(
            #[trigger] kept_entries(entries, keys)[i].0,
        ) by {
            if i < prev.len() {
                assert(keys.drop_last().contains(prev[i].0));
                let k = choose|k: int| 0 <= k < keys.drop_last().len() && keys.drop_last()[k] == prev[i].0;
                assert(keys[k] == prev[i].0);
            } else {
                assert(keys[keys.len() - 1] == keys.last());
            }
        }
    }
}

/// A restricted configuration holds no key outside the allowlist besides
/// the two it sets, and it always sets `approval_policy` to `never` and
/// `sandbox_mode` to `read-only`, after everything it keeps.
pub proof fn law_restricted_config_keeps_only_allowlisted_keys(
    r: Seq<(String, ConfigValue)>,
    entries: Seq<(String, toml::Value)>,
)
    requires
        is_restricted_config(r, entries),
    ensures
        forall|i: int| 0 <= i < r.len() - 2 ==> restricted_config_keys().contains(#[trigger] r[i].0@),
        r[r.len() - 2].0@ == "approval_policy"@,
        r[r.len() - 1].0@ == "sandbox_mode"@,
        r.len() <= restricted_config_keys().len() + 2,
{
    lemma_kept_keys_allowed(entries, restricted_config_keys());
    let kept = kept_entries(entries, restricted_config_keys());
    assert forall|i: int| 0 <= i < r.len() - 2 implies restricted_config_keys().contains(#[trigger] r[i].0@) by {
        assert(r[i].0@ == kept[i].0);
    }
}

/// The allowlisted keys among `source_keys`, in allowlist order.
pub open spec fn kept_keys(source_keys: Seq<Seq<char>>) -> Seq<Seq<char>> {
    restricted_config_keys().filter(|k: Seq<char>| source_keys.contains(k))
}

/// The top-level keys of the user's configuration: none without one.
pub open spec fn source_keys(source: Option<&str>) -> Seq<Seq<char>> {
    match source {
        Some(raw) => match toml_root_keys(raw@) {
            Some(Some(ks)) => ks,
            _ => Seq::empty(),
        },
        None => Seq::empty(),
    }
}

/// `text` is a restricted configuration for a user configuration with the
/// top-level keys `source_keys`: read back, its root table holds exactly
/// the allowlisted keys the user set, `approval_policy = "never"` and
/// `sandbox_mode = "read-only"`.
pub open spec fn restricted_text(text: Seq<char>, source_keys: Seq<Seq<char>>) -> bool {
    &&& toml_root_keys(text) matches Some(Some(ks)) && forall|k: Seq<char>|
        #[trigger] ks.contains(k) <==> (kept_keys(source_keys).contains(k) || k == "approval_policy"@ || k
            == "sandbox_mode"@)
    &&& toml_root_string(text, "approval_policy"@) == Some("never"@)
    &&& toml_root_string(text, "sandbox_mode"@) == Some("read-only"@)
}

proof fn lemma_first_value_present(entries: Seq<(String, toml::Value)>, key: Seq<char>)
    ensures
        first_value(entries, key) is Some <==> entry_keys(entries).contains(key),
    decreases entries.len(),
{
    if entries.len() > 0 {
        lemma_first_value_present(entries.drop_first(), key);
        assert(entry_keys(entries.drop_first()) =~= entry_keys(entries).drop_first());
        if entry_keys(entries).contains(key) && entries[0].0@ != key {
            let i = choose|i: int| 0 <= i < entry_keys(entries).len() && entry_keys(entries)[i] == key;
            assert(i > 0);
            assert(entry_keys(entries.drop_first())[i - 1] == key);
        }
        if entry_keys(entries.drop_first()).contains(key) {
            let i = choose|i: int| 0 <= i < entry_keys(entries.drop_first()).len() && entry_keys(entries.drop_first())[i] == key;
            assert(entry_keys(entries)[i + 1] == key);
        }
        if entries[0].0@ == key {
            assert(entry_keys(entries)[0] == key);
        }
    }
}

proof fn lemma_kept_entries_keys(entries: Seq<(String, toml::Value)>, keys: Seq<Seq<char>>)
    ensures
        kept_entries(entries, keys).map_values(|e: (Seq<char>, toml::Value)| e.0) == keys.filter(
            |k: Seq<char>| entry_keys(entries).contains(k),
        ),
    decreases keys.len(),
{
    reveal(Seq::filter);
    if keys.len() > 0 {
        lemma_kept_entries_keys(entries, keys.drop_last());
        lemma_first_value_present(entries, keys.last());
        let prev = kept_entries(entries, keys.drop_last());
        match first_value(entries, keys.last()) {
            Some(v) => {
                assert(prev.push((keys.last(), v)).map_values(|e: (Seq<char>, toml::Value)| e.0)
                    =~= prev.map_values(|e: (Seq<char>, toml::Value)| e.0).push(keys.last()));
            },
            None => {},
        }
    }
}

proof fn lemma_config_keys_of_restricted(r: Seq<(String, ConfigValue)>, entries: Seq<(String, toml::Value)>, k: Seq<char>)
    requires
        is_restricted_config(r, entries),
    ensures
        config_keys(r).contains(k) <==> (kept_keys(entry_keys(entries)).contains(k) || k == "approval_policy"@ || k
            == "sandbox_mode"@),
{
    let kept = kept_entries(entries, restricted_config_keys());
    let n = kept.len() as int;
    lemma_kept_entries_keys(entries, restricted_config_keys());
    let kk = kept.map_values(|e: (Seq<char>, toml::Value)| e.0);
    assert(kk == kept_keys(entry_keys(entries)));
    if config_keys(r).contains(k) {
        let i = choose|i: int| 0 <= i < config_keys(r).len() && config_keys(r)[i] == k;
        if i < n {
            assert(r[i].0@ == kept[i].0);
            assert(kk[i] == k);
        }
    }
    if kk.contains(k) {
        let i = choose|i: int| 0 <= i < kk.len() && kk[i] == k;
        assert(r[i].0@ == kept[i].0);
        assert(config_keys(r)[i] == k);
    }
    if k == "approval_policy"@ {
        assert(config_keys(r)[n] == k);
    }
    if k == "sandbox_mode"@ {
        assert(config_keys(r)[n + 1] == k);
    }
}

pub open spec fn invalid_config_prefix(operation: Seq<char>) -> Seq<char> {
    "Invalid Codex config for "@ + operation_description_of(operation) + ": "@
}

proof fn lemma_restricted_text(r: Seq<(String, ConfigValue)>, entries: Seq<(String, toml::Value)>, t: Seq<char>)
    requires
        is_restricted_config(r, entries),
        toml_root_keys(t) matches Some(Some(ks)) && forall|k: Seq<char>|
            #[trigger] ks.contains(k) <==> config_keys(r).contains(k),
        forall|i: int|
            0 <= i < r.len() && (forall|j: int| i < j < r.len() ==> r[j].0@ != r[i].0@) ==> (
            #[trigger] r[i].1 matches ConfigValue::Text(s) ==> toml_root_string(t, r[i].0@) == Some(s@)),
    ensures
        restricted_text(t, entry_keys(entries)),
{
    let n = r.len() - 2;
    reveal_strlit("approval_policy");
    reveal_strlit("sandbox_mode");
    assert("approval_policy"@.len() != "sandbox_mode"@.len());
    assert(r[n].1 matches ConfigValue::Text(s) ==> toml_root_string(t, r[n].0@) == Some(s@));
    assert(r[n + 1].1 matches ConfigValue::Text(s) ==> toml_root_string(t, r[n + 1].0@) == Some(s@));
    let ks = toml_root_keys(t)->0->0;
    assert forall|k: Seq<char>|
        #[trigger] ks.contains(k) <==> (kept_keys(entry_keys(entries)).contains(k) || k == "approval_policy"@ || k
            == "sandbox_mode"@) by {
        lemma_config_keys_of_restricted(r, entries, k);
    }
}

/// The restricted Codex configuration made from the user's `config.toml`
/// text (`None` when there is none), as TOML text: read back, it holds the
/// allowlisted keys the user set, `approval_policy = "never"` and
/// `sandbox_mode = "read-only"`, and nothing else. An unreadable config, or
/// one whose root is not a table, is refused with the reason.
pub fn restricted_codex_config(source: Option<&str>, operation: &str) -> (r: Result<String, RestrictedCodexError>)
    ensures
        source matches Some(raw) && toml_root_keys(raw@) is None ==> (r matches Err(
            RestrictedCodexError::Failed(m),
        ) && starts_with(m@, invalid_config_prefix(operation@))),
        source matches Some(raw) && toml_root_keys(raw@) == Some(None::<Seq<Seq<char>>>) ==> (r matches Err(
            RestrictedCodexError::Failed(m),
        ) && m@ == invalid_config_prefix(operation@) + "root must be a table"@),
        (source is None || (source matches Some(raw) && toml_root_keys(raw@) matches Some(Some(_))))
            ==> r is Ok,
        r matches Ok(t) ==> restricted_text(t@, source_keys(source)),
{
    let entries: Vec<(String, toml::Value)> = match source {
        Some(raw) => match parse_toml_root(raw) {
            Ok(Some(entries)) => entries,
            Ok(None) => {
                let prefix = concat(
                    concat("Invalid Codex config for ", operation_description(operation)).as_str(),
                    ": ",
                );
                return Err(RestrictedCodexError::Failed(concat(prefix.as_str(), "root must be a table")));
            },
            Err(e) => {
                let prefix = concat(
                    concat("Invalid Codex config for ", operation_description(operation)).as_str(),
                    ": ",
                );
                let m = concat(prefix.as_str(), e.as_str());
                proof {
                    assert(m@.subrange(0, prefix@.len() as int) =~= prefix@);
                }
                return Err(RestrictedCodexError::Failed(m));
            },
        },
        None => Vec::new(),
    };
    assert(entry_keys(entries@) == source_keys(source)) by {
        if source is None {
            assert(entry_keys(entries@) =~= Seq::<Seq<char>>::empty());
        }
    }
    let restricted = restricted_config_entries(&entries);
    let ghost rv = restricted@;
    match render_toml_table(restricted) {
        Ok(text) => {
            proof {
                lemma_restricted_text(rv, entries@, text@);
            }
            Ok(text)
        },
        Err(e) => {
            let m = concat("Serialize restricted Codex config failed: ", e.as_str());
            Err(RestrictedCodexError::Failed(m))
        },
    }
}

/// `r` is the Codex home the setting `value` names when the home directory
/// is `h`: an empty value gives `.codex` under `h`, `~` gives `h` itself,
/// `~/rest` gives `rest` under `h`, and any other value is taken as it is.
pub open spec fn resolved_against_home(value: Seq<char>, h: Seq<char>, r: Seq<char>) -> bool {
    let t = trim(value);
    let rest = t.subrange(2, t.len() as int);
    &&& value.len() == 0 ==> ends_with(r, ".codex"@)
    &&& value.len() == 0 && !starts_with(h, verbatim_prefix()) ==> joined_under(r, h, ".codex"@)
    &&& value.len() > 0 && t == "~"@ ==> r == h
    &&& value.len() > 0 && starts_with(t, "~/"@) && relative_text(rest) && !starts_with(h, verbatim_prefix())
        ==> joined_under(r, h, rest)
    &&& value.len() > 0 && starts_with(t, "~/"@) && single_component(rest) ==> ends_with(r, rest)
    &&& value.len() > 0 && t != "~"@ && !starts_with(t, "~/"@) ==> r == value
}

/// The Codex home a restricted session copies its credentials from, given
/// the `CODEX_HOME` of its runtime environment and the home directory
/// (`.` when there is none): an empty value means `.codex` under the home
/// directory, `~` the home directory itself, `~/rest` that path under it,
/// and any other value is taken as it is.
pub fn codex_home_from_setting(value: &str, home: Option<String>) -> (r: String)
    ensures
        ({
            let h = match home {
                Some(h) => h@,
                None => "."@,
            };
            let t = trim(value@);
            let rest = t.subrange(2, t.len() as int);
            &&& value@.len() == 0 ==> ends_with(r@, ".codex"@)
            &&& value@.len() == 0 && !starts_with(h, verbatim_prefix()) ==> joined_under(r@, h, ".codex"@)
            &&& value@.len() > 0 && trim(value@) == "~"@ ==> r@ == h
            &&& value@.len() > 0 && starts_with(t, "~/"@) && relative_text(rest)
                && !starts_with(h, verbatim_prefix()) ==> joined_under(r@, h, rest)
            &&& value@.len() > 0 && starts_with(t, "~/"@) && single_component(rest) ==> ends_with(r@, rest)
            &&& value@.len() > 0 && trim(value@) != "~"@ && !starts_with(trim(value@), "~/"@) ==> r@ == value@
        }),
{
    let base = match home {
        Some(h) => h,
        None => ".".to_owned(),
    };
    if value.is_empty() {
        proof {
            reveal_strlit(".codex");
            assert(".codex"@.len() == 6);
            assert(".codex"@ != seq!['.']);
            assert(".codex"@ != seq!['.', '.']);
        }
        return join_path(base.as_str(), ".codex");
    }
    let t = trim_chars(chars_of(value).as_slice());
    let tilde = chars_of("~");
    if crate::text::eq_chars(t.as_slice(), tilde.as_slice()) {
        proof {
            reveal_strlit("~/");
            reveal_strlit("~");
            assert("~/"@.len() == 2);
            assert(!starts_with(t@, "~/"@));
        }
        return base;
    }
    if starts_with_chars(t.as_slice(), chars_of("~/").as_slice()) {
        proof {
            reveal_strlit("~/");
        }
        let rest = slice_chars(t.as_slice(), 2, t.len());
        return join_path(base.as_str(), string_of(rest.as_slice()).as_str());
    }
    value.to_owned()
}

/// The Codex home named by a restricted session's runtime environment
/// (`setting` is its `CODEX_HOME`), or when it names none, the one
/// `$CODEX_HOME` (`codex_home_env`) or the home directory gives.
pub fn codex_home_for_runtime(setting: Option<&str>, codex_home_env: Option<String>) -> (r: String)
    ensures
        setting matches Some(v) ==> exists|h: Seq<char>| #[trigger] resolved_against_home(v@, h, r@),
        match setting {
            Some(v) => (v@.len() > 0 && trim(v@) != "~"@ && !starts_with(trim(v@), "~/"@) ==> r@
                == v@) && (v@.len() == 0 ==> ends_with(r@, ".codex"@)),
            None => true,
        },
        setting is None ==> (crate::paths::set_value(codex_home_env) matches Some(e) ==> r@ == e),
        setting is None && crate::paths::set_value(codex_home_env) is None ==> ends_with(r@, ".codex"@),
{
    match setting {
        Some(v) => {
            let home = home_dir();
            let ghost h = match &home {
                Some(x) => x@,
                None => "."@,
            };
            let r = codex_home_from_setting(v, home);
            assert(resolved_against_home(v@, h, r@));
            r
        },
        None => resolve_codex_home_dir(codex_home_env),
    }
}

} // verus!
