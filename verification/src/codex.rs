//! The Codex rollout reader: where rollouts live, which files are rollouts,
//! and the lightweight summary of one rollout that the conversation list
//! shows.
use vstd::prelude::*;
use crate::json::{parse_json, Json};
use crate::paths::{
    home_dir, join_path, joined_under, relative_text, set_value, single_component, verbatim_prefix,
};
use crate::text::{cap, cap_chars, chars_of, ends_with, ends_with_chars, contains, contains_chars, starts_with, starts_with_chars, trim, trim_chars, string_of};
use crate::timestamp::{line_timestamp, parse_codex_timestamp};
use crate::title::{extract_codex_title_candidate, title_candidate};
use crate::user_input::{
    extract_codex_text_content, has_input_image, opt_text, response_item_user_has_image,
    text_content,
};

verus! {

/// The Codex transcript reader, rooted at the directory that holds the
/// rollout files (`$CODEX_HOME/sessions`, by default `~/.codex/sessions`).
pub struct CodexParser {
    base_dir: String,
}

impl CodexParser {
    pub closed spec fn base(&self) -> Seq<char> {
        self.base_dir@
    }

    /// The reader of the user's Codex sessions; `codex_home_env` is the value
    /// of `$CODEX_HOME`, if any.
    pub fn new(codex_home_env: Option<String>) -> (r: Self)
        ensures
            set_value(codex_home_env) matches Some(home) ==> (!starts_with(home, verbatim_prefix())
                ==> joined_under(r.base(), home, "sessions"@)),
            ends_with(r.base(), "sessions"@),
    {
        let home = resolve_codex_home_dir(codex_home_env);
        proof {
            lemma_plain_names();
        }
        let base_dir = join_path(home.as_str(), "sessions");
        CodexParser { base_dir }
    }

    /// A reader rooted at the given directory.
    pub fn with_base_dir(base_dir: String) -> (r: Self)
        ensures
            r.base() == base_dir@,
    {
        CodexParser { base_dir }
    }

    pub fn base_dir(&self) -> (r: &str)
        ensures
            r@ == self.base(),
    {
        self.base_dir.as_str()
    }
}

/// `$CODEX_HOME` when it is set, else `.codex` under the home directory (the
/// empty directory when there is none).
pub fn resolve_codex_home_dir_from(codex_home_env: Option<String>, home: Option<String>) -> (r: String)
    ensures
        set_value(codex_home_env) matches Some(v) ==> r@ == v,
        set_value(codex_home_env) is None ==> ends_with(r@, ".codex"@),
        set_value(codex_home_env) is None ==> ({
            let h = match home {
                Some(h) => h@,
                None => Seq::empty(),
            };
            !starts_with(h, verbatim_prefix()) ==> joined_under(r@, h, ".codex"@)
        }),
{
    if let Some(v) = codex_home_env {
        if !v.as_str().is_empty() {
            return v;
        }
    }
    let base = match home {
        Some(h) => h,
        None => String::new(),
    };
    proof {
        lemma_plain_names();
    }
    join_path(base.as_str(), ".codex")
}

/// `sessions` and `.codex` are single plain path components.
proof fn lemma_plain_names()
    ensures
        single_component("sessions"@),
        relative_text("sessions"@),
        single_component(".codex"@),
        relative_text(".codex"@),
{
    reveal_strlit("sessions");
    reveal_strlit(".codex");
    assert(".codex"@.len() == 6);
    assert(".codex"@ != seq!['.']);
    assert(".codex"@ != seq!['.', '.']);
    assert("sessions"@.len() == 8);
    assert("sessions"@ != seq!['.']);
    assert("sessions"@ != seq!['.', '.']);
}

/// As `resolve_codex_home_dir_from`, asking `dirs::home_dir` for the home
/// directory when `$CODEX_HOME` is not set.
pub fn resolve_codex_home_dir(codex_home_env: Option<String>) -> (r: String)
    ensures
        set_value(codex_home_env) matches Some(v) ==> r@ == v,
        set_value(codex_home_env) is None ==> ends_with(r@, ".codex"@),
{
    let set = match &codex_home_env {
        Some(v) => !v.as_str().is_empty(),
        None => false,
    };
    if set {
        resolve_codex_home_dir_from(codex_home_env, None)
    } else {
        resolve_codex_home_dir_from(codex_home_env, home_dir())
    }
}

/// A rollout file: named `rollout-…` with the `jsonl` extension.
pub open spec fn rollout_file_name(name: Seq<char>) -> bool {
    starts_with(name, "rollout-"@) && ends_with(name, ".jsonl"@)
}

pub fn is_rollout_file_name(name: &str) -> (r: bool)
    ensures
        r == rollout_file_name(name@),
{
    let n = chars_of(name);
    starts_with_chars(n.as_slice(), chars_of("rollout-").as_slice()) && ends_with_chars(
        n.as_slice(),
        chars_of(".jsonl").as_slice(),
    )
}

/// The file that holds a conversation: a `jsonl` file whose name contains
/// the conversation id.
pub open spec fn holds_conversation(name: Seq<char>, conversation_id: Seq<char>) -> bool {
    ends_with(name, ".jsonl"@) && contains(name, conversation_id)
}

pub fn is_conversation_file_name(name: &str, conversation_id: &str) -> (r: bool)
    ensures
        r == holds_conversation(name@, conversation_id@),
{
    let n = chars_of(name);
    ends_with_chars(n.as_slice(), chars_of(".jsonl").as_slice()) && contains_chars(
        n.as_slice(),
        chars_of(conversation_id).as_slice(),
    )
}

/// What the summary has gathered from the lines read so far.
pub struct SummaryModel {
    pub conversation_id: Option<Seq<char>>,
    pub cwd: Option<Seq<char>>,
    pub git_branch: Option<Seq<char>>,
    pub model: Option<Seq<char>>,
    pub title: Option<Seq<char>>,
    pub first_ts: Option<i64>,
    pub last_ts: Option<i64>,
    pub message_count: int,
    pub has_real_user: bool,
    pub goal_objective: Option<Seq<char>>,
    pub goal_opens_session: bool,
}

pub open spec fn initial_summary() -> SummaryModel {
    SummaryModel {
        conversation_id: None,
        cwd: None,
        git_branch: None,
        model: None,
        title: None,
        first_ts: None,
        last_ts: None,
        message_count: 0,
        has_real_user: false,
        goal_objective: None,
        goal_opens_session: false,
    }
}

/// A goal update that opens work on a goal: an active goal with a
/// non-blank objective, which it yields. A cleared goal, a blank objective
/// or a goal in any other status opens nothing.
pub open spec fn opening_goal(goal: Json) -> Option<Seq<char>> {
    if goal.str_field("status"@) == Some("active"@) && goal.str_field("objective"@) is Some && trim(
        goal.str_field("objective"@)->0,
    ).len() > 0 {
        goal.str_field("objective"@)
    } else {
        None
    }
}

/// The native thread name of a `thread_name_updated` event: the first of
/// `thread_name`, `threadName` and `name` that is present, when it is a
/// string.
pub open spec fn thread_name_of(p: Json) -> Option<Seq<char>> {
    if p.field("thread_name"@) is Some {
        p.str_field("thread_name"@)
    } else if p.field("threadName"@) is Some {
        p.str_field("threadName"@)
    } else {
        p.str_field("name"@)
    }
}

pub open spec fn git_branch_of(p: Json) -> Option<Seq<char>> {
    match p.field("git"@) {
        Some(g) => g.str_field("branch"@),
        None => None,
    }
}

pub open spec fn with_timestamp(st: SummaryModel, v: Json) -> SummaryModel {
    match line_timestamp(v) {
        Some(t) => SummaryModel {
            first_ts: if st.first_ts is None {
                Some(t)
            } else {
                st.first_ts
            },
            last_ts: Some(t),
            ..st
        },
        None => st,
    }
}

/// At most this many characters of a thread name become the title.
pub const THREAD_TITLE_LIMIT: usize = 100;

/// The title a thread name gives: the name trimmed, cut to its first
/// `THREAD_TITLE_LIMIT` characters.
pub open spec fn thread_title(name: Seq<char>) -> Seq<char> {
    cap(trim(name), THREAD_TITLE_LIMIT as nat)
}

pub open spec fn event_step(st: SummaryModel, p: Json) -> SummaryModel {
    let pt = p.str_field("type"@);
    if pt == Some("user_message"@) {
        let raw = match p.str_field("message"@) {
            Some(m) => m,
            None => Seq::empty(),
        };
        SummaryModel {
            message_count: st.message_count + 1,
            has_real_user: true,
            title: if st.title is None {
                title_candidate(raw, true)
            } else {
                st.title
            },
            ..st
        }
    } else if pt == Some("agent_message"@) {
        SummaryModel { message_count: st.message_count + 1, ..st }
    } else if pt == Some("thread_goal_updated"@) {
        if st.goal_objective is None && p.field("goal"@) is Some && opening_goal(
            p.field("goal"@)->0,
        ) is Some {
            let objective = opening_goal(p.field("goal"@)->0)->0;
            let opens = !st.has_real_user;
            SummaryModel {
                goal_opens_session: opens,
                title: if opens && st.title is None {
                    title_candidate(objective, true)
                } else {
                    st.title
                },
                goal_objective: Some(objective),
                ..st
            }
        } else {
            st
        }
    } else if pt == Some("thread_name_updated"@) {
        match thread_name_of(p) {
            Some(n) => if trim(n).len() > 0 {
                SummaryModel { title: Some(thread_title(n)), ..st }
            } else {
                st
            },
            None => st,
        }
    } else {
        st
    }
}

pub open spec fn response_item_step(st: SummaryModel, p: Json) -> SummaryModel {
    if p.str_field("type"@) == Some("message"@) && p.str_field("role"@) == Some("user"@)
        && has_input_image(p) {
        SummaryModel {
            has_real_user: true,
            title: if st.title is None {
                match text_content(p) {
                    Some(t) => title_candidate(t, false),
                    None => None,
                }
            } else {
                st.title
            },
            ..st
        }
    } else {
        st
    }
}

/// One transcript line's contribution to the summary.
pub open spec fn value_step(st0: SummaryModel, v: Json) -> SummaryModel {
    let st = with_timestamp(st0, v);
    let ty = v.str_field("type"@);
    if ty == Some("session_meta"@) {
        match v.field("payload"@) {
            Some(p) => SummaryModel {
                conversation_id: p.str_field("id"@),
                cwd: p.str_field("cwd"@),
                git_branch: git_branch_of(p),
                ..st
            },
            None => st,
        }
    } else if ty == Some("turn_context"@) && st.model is None {
        SummaryModel {
            model: match v.field("payload"@) {
                Some(p) => p.str_field("model"@),
                None => None,
            },
            ..st
        }
    } else if ty == Some("event_msg"@) {
        match v.field("payload"@) {
            Some(p) => event_step(st, p),
            None => st,
        }
    } else if ty == Some("response_item"@) {
        match v.field("payload"@) {
            Some(p) => response_item_step(st, p),
            None => st,
        }
    } else {
        st
    }
}

/// A line that is blank or not JSON contributes nothing.
pub open spec fn line_step(st: SummaryModel, line: Seq<char>) -> SummaryModel {
    if trim(line).len() == 0 {
        st
    } else {
        match crate::json::json_parse_result(line) {
            Some(v) => value_step(st, v),
            None => st,
        }
    }
}

pub open spec fn summary_fold(lines: Seq<Seq<char>>, n: int) -> SummaryModel
    decreases n,
{
    if n <= 0 {
        initial_summary()
    } else {
        line_step(summary_fold(lines, n - 1), lines[n - 1])
    }
}

/// One conversation in the list.
pub struct CodexSummary {
    pub id: String,
    pub folder_path: Option<String>,
    pub title: Option<String>,
    pub started_at: i64,
    pub ended_at: Option<i64>,
    pub message_count: u32,
    pub model: Option<String>,
    pub git_branch: Option<String>,
}

/// `s` is the summary of a rollout whose lines gathered `st`; `stem` names
/// the conversation when its `session_meta` gave no id.
pub open spec fn summary_matches(s: CodexSummary, st: SummaryModel, stem: Seq<char>) -> bool {
    &&& s.id@ == match st.conversation_id {
        Some(id) => id,
        None => stem,
    }
    &&& opt_text(s.folder_path) == st.cwd
    &&& opt_text(s.title) == st.title
    &&& st.first_ts == Some(s.started_at)
    &&& s.ended_at == st.last_ts
    &&& s.message_count == st.message_count + if st.goal_opens_session {
        1int
    } else {
        0int
    }
    &&& opt_text(s.model) == st.model
    &&& opt_text(s.git_branch) == st.git_branch
}

struct SummaryScan {
    conversation_id: Option<String>,
    cwd: Option<String>,
    git_branch: Option<String>,
    model: Option<String>,
    title: Option<String>,
    first_ts: Option<i64>,
    last_ts: Option<i64>,
    message_count: u32,
    has_real_user: bool,
    goal_objective: Option<String>,
    goal_opens_session: bool,
}

impl SummaryScan {
    spec fn view(&self) -> SummaryModel {
        SummaryModel {
            conversation_id: opt_text(self.conversation_id),
            cwd: opt_text(self.cwd),
            git_branch: opt_text(self.git_branch),
            model: opt_text(self.model),
            title: opt_text(self.title),
            first_ts: self.first_ts,
            last_ts: self.last_ts,
            message_count: self.message_count as int,
            has_real_user: self.has_real_user,
            goal_objective: opt_text(self.goal_objective),
            goal_opens_session: self.goal_opens_session,
        }
    }
}

fn owned(s: Option<&str>) -> (r: Option<String>)
    ensures
        opt_text(r) == match s {
            Some(t) => Some(t@),
            None => None,
        },
{
    match s {
        Some(t) => Some(t.to_owned()),
        None => None,
    }
}

fn is_str(s: Option<&str>, lit: &str) -> (r: bool)
    ensures
        r == (match s {
            Some(t) => Some(t@),
            None => None,
        } == Some(lit@)),
{
    match s {
        Some(t) => crate::text::str_eq(t, lit),
        None => false,
    }
}

fn opening_goal_objective(goal: &Json) -> (r: Option<String>)
    ensures
        opt_text(r) == opening_goal(*goal),
{
    if !is_str(goal.get_str("status"), "active") {
        return None;
    }
    match goal.get_str("objective") {
        Some(o) => {
            let t = trim_chars(chars_of(o).as_slice());
            if t.len() > 0 {
                Some(o.to_owned())
            } else {
                None
            }
        },
        None => None,
    }
}

pub(crate) fn thread_name(p: &Json) -> (r: Option<&str>)
    ensures
        match r {
            Some(t) => thread_name_of(*p) == Some(t@),
            None => thread_name_of(*p) is None,
        },
{
    if p.get("thread_name").is_some() {
        p.get_str("thread_name")
    } else if p.get("threadName").is_some() {
        p.get_str("threadName")
    } else {
        p.get_str("name")
    }
}

fn scan_event(st: &mut SummaryScan, p: &Json)
    requires
        old(st).message_count < u32::MAX,
    ensures
        final(st).view() == event_step(old(st).view(), *p),
        final(st).message_count <= old(st).message_count + 1,
{
    let pt = p.get_str("type");
    if is_str(pt, "user_message") {
        let raw = match p.get_str("message") {
            Some(m) => m,
            None => "",
        };
        proof {
            reveal_strlit("");
        }
        st.message_count = st.message_count + 1;
        st.has_real_user = true;
        if st.title.is_none() {
            st.title = extract_codex_title_candidate(raw, true);
        }
    } else if is_str(pt, "agent_message") {
        st.message_count = st.message_count + 1;
    } else if is_str(pt, "thread_goal_updated") {
        if st.goal_objective.is_none() {
            if let Some(goal) = p.get("goal") {
                if let Some(objective) = opening_goal_objective(goal) {
                    let opens = !st.has_real_user;
                    st.goal_opens_session = opens;
                    if opens && st.title.is_none() {
                        st.title = extract_codex_title_candidate(objective.as_str(), true);
                    }
                    st.goal_objective = Some(objective);
                }
            }
        }
    } else if is_str(pt, "thread_name_updated") {
        if let Some(n) = thread_name(p) {
            let t = trim_chars(chars_of(n).as_slice());
            if t.len() > 0 {
                let shown = cap_chars(t.as_slice(), THREAD_TITLE_LIMIT);
                st.title = Some(string_of(shown.as_slice()));
            }
        }
    }
}

fn scan_response_item(st: &mut SummaryScan, p: &Json)
    ensures
        final(st).view() == response_item_step(old(st).view(), *p),
        final(st).message_count == old(st).message_count,
{
    if is_str(p.get_str("type"), "message") && is_str(p.get_str("role"), "user")
        && response_item_user_has_image(p) {
        st.has_real_user = true;
        if st.title.is_none() {
            st.title = match extract_codex_text_content(p) {
                Some(t) => extract_codex_title_candidate(t.as_str(), false),
                None => None,
            };
        }
    }
}

fn scan_value(st: &mut SummaryScan, v: &Json)
    requires
        old(st).message_count < u32::MAX,
    ensures
        final(st).view() == value_step(old(st).view(), *v),
        final(st).message_count <= old(st).message_count + 1,
{
    if let Some(t) = parse_codex_timestamp(v) {
        if st.first_ts.is_none() {
            st.first_ts = Some(t);
        }
        st.last_ts = Some(t);
    }
    let ty = v.get_str("type");
    if is_str(ty, "session_meta") {
        if let Some(p) = v.get("payload") {
            st.conversation_id = owned(p.get_str("id"));
            st.cwd = owned(p.get_str("cwd"));
            st.git_branch = match p.get("git") {
                Some(g) => owned(g.get_str("branch")),
                None => None,
            };
        }
    } else if is_str(ty, "turn_context") && st.model.is_none() {
        st.model = match v.get("payload") {
            Some(p) => owned(p.get_str("model")),
            None => None,
        };
    } else if is_str(ty, "event_msg") {
        if let Some(p) = v.get("payload") {
            scan_event(st, p);
        }
    } else if is_str(ty, "response_item") {
        if let Some(p) = v.get("payload") {
            scan_response_item(st, p);
        }
    }
}

impl CodexParser {
    /// The summary of one rollout from its lines, or `None` when no line
    /// carries a readable timestamp. `file_stem` names the conversation when
    /// its `session_meta` gives no id.
    ///
    /// A `/goal` that opened the session, before any real user turn, counts
    /// as one more message: the conversation view shows it as the opening
    /// user message.
    pub fn parse_jsonl_summary(&self, lines: &Vec<String>, file_stem: &str) -> (r: Option<CodexSummary>)
        requires
            lines@.len() < u32::MAX,
        ensures
            ({
                let st = summary_fold(lines@.map_values(|l: String| l@), lines@.len() as int);
                &&& (r is None <==> st.first_ts is None)
                &&& (r matches Some(s) ==> summary_matches(s, st, file_stem@))
            }),
    {
        let ghost texts = lines@.map_values(|l: String| l@);
        let mut st = SummaryScan {
            conversation_id: None,
            cwd: None,
            git_branch: None,
            model: None,
            title: None,
            first_ts: None,
            last_ts: None,
            message_count: 0,
            has_real_user: false,
            goal_objective: None,
            goal_opens_session: false,
        };
        let mut i: usize = 0;
        while i < lines.len()
            invariant
                i <= lines@.len(),
                lines@.len() < u32::MAX,
                texts == lines@.map_values(|l: String| l@),
                st.view() == summary_fold(texts, i as int),
                st.message_count <= i,
            decreases lines.len() - i,
        {
            let line = lines[i].as_str();
            assert(texts[i as int] == line@);
            let t = trim_chars(chars_of(line).as_slice());
            if t.len() > 0 {
                if let Some(v) = parse_json(line) {
                    scan_value(&mut st, &v);
                }
            }
            i += 1;
        }
        let started_at = match st.first_ts {
            Some(t) => t,
            None => return None,
        };
        let message_count = if st.goal_opens_session {
            st.message_count + 1
        } else {
            st.message_count
        };
        let id = match st.conversation_id {
            Some(id) => id,
            None => file_stem.to_owned(),
        };
        Some(
            CodexSummary {
                id,
                folder_path: st.cwd,
                title: st.title,
                started_at,
                ended_at: st.last_ts,
                message_count,
                model: st.model,
                git_branch: st.git_branch,
            },
        )
    }
}

/// Conversations listed newest first: each starts no earlier than the next.
pub open spec fn newest_first(s: Seq<CodexSummary>) -> bool {
    forall|i: int, j: int| 0 <= i < j < s.len() ==> s[i].started_at >= s[j].started_at
}

/// The conversations that start at `t`.
pub open spec fn starting_at(t: i64) -> spec_fn(CodexSummary) -> bool {
    |s: CodexSummary| s.started_at == t
}

proof fn lemma_filter_single(x: CodexSummary, t: i64)
    ensures
        seq![x].filter(starting_at(t)) == if x.started_at == t {
            seq![x]
        } else {
            Seq::<CodexSummary>::empty()
        },
{
    let e = Seq::<CodexSummary>::empty();
    assert(e.push(x) =~= seq![x]);
    e.lemma_filter_push(x, starting_at(t));
    reveal(Seq::filter);
    assert(e.filter(starting_at(t)) =~= e);
    assert(e.push(x) =~= seq![x]);
}

/// Inserting `x` after every conversation that starts no earlier than it,
/// and before the rest, appends it to those that start when it does.
proof fn lemma_insert_keeps_order(before: Seq<CodexSummary>, pos: int, x: CodexSummary, t: i64)
    requires
        0 <= pos <= before.len(),
        forall|i: int| pos <= i < before.len() ==> before[i].started_at < x.started_at,
    ensures
        before.insert(pos, x).filter(starting_at(t)) == if x.started_at == t {
            before.filter(starting_at(t)).push(x)
        } else {
            before.filter(starting_at(t))
        },
{
    let f = starting_at(t);
    let a = before.subrange(0, pos);
    let b = before.subrange(pos, before.len() as int);
    assert(before =~= a + b);
    assert(before.insert(pos, x) =~= a + seq![x] + b);
    Seq::filter_distributes_over_add(a, b, f);
    Seq::filter_distributes_over_add(a + seq![x], b, f);
    Seq::filter_distributes_over_add(a, seq![x], f);
    lemma_filter_single(x, t);
    if x.started_at == t {
        assert forall|i: int| 0 <= i < b.len() implies !f(b[i]) by {
            assert(b[i] == before[pos + i]);
        }
        assert(b.all(|y: CodexSummary| !f(y)));
        b.lemma_all_neg_filter_empty(f);
        assert(b.filter(f) =~= Seq::<CodexSummary>::empty());
        assert(a.filter(f) + seq![x] =~= a.filter(f).push(x));
        assert(a.filter(f) + Seq::<CodexSummary>::empty() =~= a.filter(f));
        assert(a.filter(f).push(x) + Seq::<CodexSummary>::empty() =~= a.filter(f).push(x));
    } else {
        assert(a.filter(f) + Seq::<CodexSummary>::empty() =~= a.filter(f));
    }
}

/// The conversations in list order, newest first. Conversations that start
/// at the same time keep the order they were given in.
pub fn sort_newest_first(items: Vec<CodexSummary>) -> (r: Vec<CodexSummary>)
    ensures
        r@.to_multiset() == items@.to_multiset(),
        newest_first(r@),
        forall|t: i64| #[trigger] r@.filter(starting_at(t)) == items@.filter(starting_at(t)),
{
    let mut out: Vec<CodexSummary> = Vec::new();
    let mut rest = items;
    let ghost all = rest@;
    proof {
        assert(out@ =~= all.subrange(0, 0));
    }
    let n = rest.len();
    proof {
        assert(rest@ =~= all.subrange(0, n as int));
    }
    let mut k: usize = 0;
    while k < n
        invariant
            n == all.len(),
            k <= n,
            rest@.len() == n - k,
            rest@ == all.subrange(k as int, n as int),
            out@.to_multiset() == all.subrange(0, k as int).to_multiset(),
            newest_first(out@),
            forall|t: i64| #[trigger] out@.filter(starting_at(t)) == all.subrange(0, k as int).filter(starting_at(t)),
        decreases n - k,
    {
        let x = rest.remove(0);
        assert(x == all[k as int]);
        assert(rest@ =~= all.subrange(k + 1, n as int));
        let mut pos: usize = 0;
        while pos < out.len() && out[pos].started_at >= x.started_at
            invariant
                pos <= out@.len(),
                forall|i: int| 0 <= i < pos ==> out@[i].started_at >= x.started_at,
            decreases out.len() - pos,
        {
            pos += 1;
        }
        let ghost before = out@;
        out.insert(pos, x);
        proof {
            assert(all.subrange(0, k + 1) =~= all.subrange(0, k as int).push(all[k as int]));
            assert(all.subrange(0, k as int).push(x) =~= all.subrange(0, k as int).insert(k as int, x));
            assert(out@ == before.insert(pos as int, x));
            vstd::seq_lib::to_multiset_insert(before, pos as int, x);
            assert forall|i: int| pos <= i < before.len() implies before[i].started_at < x.started_at by {
                assert(before[pos as int].started_at < x.started_at);
            }
            assert forall|t: i64| #[trigger] out@.filter(starting_at(t)) == all.subrange(0, k + 1).filter(starting_at(t)) by {
                lemma_insert_keeps_order(before, pos as int, x, t);
                all.subrange(0, k as int).lemma_filter_push(x, starting_at(t));
            }
            vstd::seq_lib::to_multiset_insert(all.subrange(0, k as int), k as int, x);
            assert forall|i: int, j: int| 0 <= i < j < out@.len() implies out@[i].started_at >= out@[j].started_at by {
                if pos < before.len() {
                    assert(before[pos as int].started_at < x.started_at);
                }
            }
        }
        k += 1;
    }
    proof {
        assert(all.subrange(0, n as int) =~= all);
    }
    out
}

/// The title a line sets by naming the thread: a `thread_name_updated`
/// event whose name is not blank, trimmed and cut to its first
/// `THREAD_TITLE_LIMIT` characters.
pub open spec fn thread_title_of_line(line: Seq<char>) -> Option<Seq<char>> {
    if trim(line).len() == 0 {
        None
    } else {
        match crate::json::json_parse_result(line) {
            Some(v) => if v.str_field("type"@) == Some("event_msg"@) {
                match v.field("payload"@) {
                    Some(p) => if p.str_field("type"@) == Some("thread_name_updated"@) {
                        match thread_name_of(p) {
                            Some(n) => if trim(n).len() > 0 {
                                Some(thread_title(n))
                            } else {
                                None
                            },
                            None => None,
                        }
                    } else {
                        None
                    },
                    None => None,
                }
            } else {
                None
            },
            None => None,
        }
    }
}

proof fn lemma_line_keeps_title(st: SummaryModel, line: Seq<char>)
    requires
        st.title is Some,
        thread_title_of_line(line) is None,
    ensures
        line_step(st, line).title == st.title,
{
}

proof fn lemma_line_names_title(st: SummaryModel, line: Seq<char>)
    requires
        thread_title_of_line(line) is Some,
    ensures
        line_step(st, line).title == thread_title_of_line(line),
{
    reveal_strlit("event_msg");
    reveal_strlit("session_meta");
    reveal_strlit("turn_context");
    reveal_strlit("thread_name_updated");
    reveal_strlit("user_message");
    reveal_strlit("agent_message");
    reveal_strlit("thread_goal_updated");
    assert("event_msg"@.len() == 9);
    assert("session_meta"@.len() == 12);
    assert("event_msg"@ != "session_meta"@);
    let v = crate::json::json_parse_result(line)->0;
    assert(v.str_field("type"@) == Some("event_msg"@));
    let p = v.field("payload"@)->0;
    let st1 = with_timestamp(st, v);
    assert(line_step(st, line) == value_step(st, v));
    assert(v.str_field("type"@) != Some("session_meta"@));
    assert(v.str_field("type"@) != Some("turn_context"@));
    assert(value_step(st, v) == event_step(st1, p));
    assert(p.str_field("type"@) == Some("thread_name_updated"@));
    assert("thread_name_updated"@.len() == 19);
    assert("user_message"@.len() == 12);
    assert("agent_message"@.len() == 13);
    assert("thread_name_updated"@[7] != "thread_goal_updated"@[7]);
    assert(p.str_field("type"@) != Some("user_message"@));
    assert(p.str_field("type"@) != Some("agent_message"@));
    assert(p.str_field("type"@) != Some("thread_goal_updated"@));
}

/// The newest native thread name titles the conversation: when line `j`
/// names the thread and no later line does, the summary's title is that
/// name, trimmed and cut to `THREAD_TITLE_LIMIT` characters, whatever the first prompt, a `/goal` objective or any other line
/// would have given.
pub proof fn law_newest_thread_name_titles_the_summary(lines: Seq<Seq<char>>, j: int)
    requires
        0 <= j < lines.len(),
        thread_title_of_line(lines[j]) is Some,
        forall|k: int| j < k < lines.len() ==> thread_title_of_line(#[trigger] lines[k]) is None,
    ensures
        summary_fold(lines, lines.len() as int).title == thread_title_of_line(lines[j]),
{
    lemma_titled_from(lines, j, lines.len() as int);
}

proof fn lemma_titled_from(lines: Seq<Seq<char>>, j: int, n: int)
    requires
        0 <= j < n <= lines.len(),
        thread_title_of_line(lines[j]) is Some,
        forall|k: int| j < k < n ==> thread_title_of_line(#[trigger] lines[k]) is None,
    ensures
        summary_fold(lines, n).title == thread_title_of_line(lines[j]),
    decreases n - j,
{
    if n == j + 1 {
        lemma_line_names_title(summary_fold(lines, j), lines[j]);
    } else {
        lemma_titled_from(lines, j, n - 1);
        assert(thread_title_of_line(lines[n - 1]) is None);
        lemma_line_keeps_title(summary_fold(lines, n - 1), lines[n - 1]);
    }
}

/// The time a rollout line carries: its `timestamp`, when the line is a
/// JSON value whose timestamp reads as a UTC time.
pub open spec fn line_time(line: Seq<char>) -> Option<i64> {
    if trim(line).len() == 0 {
        None
    } else {
        match crate::json::json_parse_result(line) {
            Some(v) => line_timestamp(v),
            None => None,
        }
    }
}

proof fn lemma_line_step_times(st: SummaryModel, line: Seq<char>)
    ensures
        line_step(st, line).first_ts == match line_time(line) {
            Some(t) => if st.first_ts is None {
                Some(t)
            } else {
                st.first_ts
            },
            None => st.first_ts,
        },
        line_step(st, line).last_ts == match line_time(line) {
            Some(t) => Some(t),
            None => st.last_ts,
        },
{
}

/// A conversation's summary is dated by the readable timestamps of its
/// lines and by nothing else: it starts at the first of them and ends at the
/// last, and it has no start at all (so `parse_jsonl_summary` gives no
/// summary) exactly when no line carries one.
pub proof fn law_summary_spans_the_readable_timestamps(lines: Seq<Seq<char>>, n: int)
    requires
        0 <= n <= lines.len(),
    ensures
        summary_fold(lines, n).first_ts is None <==> forall|k: int| 0 <= k < n ==> line_time(#[trigger] lines[k]) is None,
        summary_fold(lines, n).first_ts matches Some(t) ==> exists|j: int|
            0 <= j < n && line_time(lines[j]) == Some(t) && forall|k: int| 0 <= k < j ==> line_time(#[trigger] lines[k]) is None,
        summary_fold(lines, n).last_ts matches Some(t) ==> exists|j: int|
            0 <= j < n && line_time(lines[j]) == Some(t) && forall|k: int| j < k < n ==> line_time(#[trigger] lines[k]) is None,
        summary_fold(lines, n).first_ts is None <==> summary_fold(lines, n).last_ts is None,
    decreases n,
{
    if n > 0 {
        law_summary_spans_the_readable_timestamps(lines, n - 1);
        lemma_line_step_times(summary_fold(lines, n - 1), lines[n - 1]);
        let prev = summary_fold(lines, n - 1);
        if line_time(lines[n - 1]) is Some {
            assert(line_time(lines[n - 1]) is Some);
            if prev.first_ts is None {
                let t = line_time(lines[n - 1])->0;
                assert(forall|k: int| 0 <= k < n - 1 ==> line_time(#[trigger] lines[k]) is None);
                assert(0 <= n - 1 < n && line_time(lines[n - 1]) == Some(t) && forall|k: int|
                    0 <= k < n - 1 ==> line_time(#[trigger] lines[k]) is None);
            } else {
                let t = prev.first_ts->0;
                let j = choose|j: int|
                    0 <= j < n - 1 && line_time(lines[j]) == Some(t) && forall|k: int|
                        0 <= k < j ==> line_time(#[trigger] lines[k]) is None;
                assert(0 <= j < n && line_time(lines[j]) == Some(t));
            }
            let t = line_time(lines[n - 1])->0;
            assert(0 <= n - 1 < n && line_time(lines[n - 1]) == Some(t) && forall|k: int|
                n - 1 < k < n ==> line_time(#[trigger] lines[k]) is None);
        } else {
            if prev.first_ts is Some {
                let t = prev.first_ts->0;
                let j = choose|j: int|
                    0 <= j < n - 1 && line_time(lines[j]) == Some(t) && forall|k: int|
                        0 <= k < j ==> line_time(#[trigger] lines[k]) is None;
                assert(0 <= j < n && line_time(lines[j]) == Some(t));
            }
            if prev.last_ts is Some {
                let t = prev.last_ts->0;
                let j = choose|j: int|
                    0 <= j < n - 1 && line_time(lines[j]) == Some(t) && forall|k: int|
                        j < k < n - 1 ==> line_time(#[trigger] lines[k]) is None;
                assert(0 <= j < n && line_time(lines[j]) == Some(t));
                assert forall|k: int| j < k < n implies line_time(#[trigger] lines[k]) is None by {
                    if k < n - 1 {
                    }
                }
            }
        }
    }
}

} // verus!
