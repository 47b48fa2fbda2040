//! Background shell sessions of Codex's unified exec: which command started
//! the session a `wait` / `write_stdin` addresses, which of those calls only
//! collect more output (and are folded into the command's card), and which
//! act on the session.
use vstd::prelude::*;
use crate::exec_output::{envelope_stripped, strip_exec_envelope};
use crate::json::{
    json_parse_result, json_text, json_view, lemma_members_view_prefix, members_view, parse_json,
    render_json, Json, JsonView,
};
use crate::text::{chars_of, trim, trim_chars};

verus! {

/// `wait` and `write_stdin`: the two tools that address a background shell
/// by the id its command's output announced.
pub open spec fn session_tool(name: Seq<char>) -> bool {
    name == "wait"@ || name == "write_stdin"@
}

pub fn is_shell_session_tool(tool_name: &str) -> (r: bool)
    ensures
        r == session_tool(tool_name@),
{
    crate::text::str_eq(tool_name, "wait") || crate::text::str_eq(tool_name, "write_stdin")
}

/// A call that only collects output: it sends no keystrokes (`chars` is
/// absent or empty) and does not terminate the session.
pub open spec fn pure_poll(args: Json) -> bool {
    let sends_input = match args.field("chars"@) {
        Some(Json::Str(s)) => s@.len() > 0,
        _ => false,
    };
    let terminates = match args.field("terminate"@) {
        Some(Json::Bool(b)) => b,
        _ => false,
    };
    !sends_input && !terminates
}

/// Whether a `wait` / `write_stdin` argument object only collects output.
pub fn is_pure_poll(args: &Json) -> (r: bool)
    ensures
        r == pure_poll(*args),
{
    let sends_input = match args.get("chars") {
        Some(Json::Str(s)) => !s.as_str().is_empty(),
        _ => false,
    };
    let terminates = match args.get("terminate") {
        Some(Json::Bool(b)) => *b,
        _ => false,
    };
    !sends_input && !terminates
}

/// The session id a `wait` / `write_stdin` argument object addresses:
/// `cell_id`, else `session_id` (the first present), as text whether it was
/// sent as a string or a number.
pub open spec fn session_id_of(args: Json) -> Option<Seq<char>> {
    let v = if args.field("cell_id"@) is Some {
        args.field("cell_id"@)
    } else {
        args.field("session_id"@)
    };
    match v {
        Some(Json::Str(s)) => Some(s@),
        Some(Json::Number(n)) => Some(n.text@),
        _ => None,
    }
}

pub fn shell_session_id(args: &Json) -> (r: Option<String>)
    ensures
        match r {
            Some(t) => session_id_of(*args) == Some(t@),
            None => session_id_of(*args) is None,
        },
{
    let v = if args.get("cell_id").is_some() {
        args.get("cell_id")
    } else {
        args.get("session_id")
    };
    match v {
        Some(Json::Str(s)) => Some(s.clone()),
        Some(Json::Number(n)) => Some(n.text.clone()),
        _ => None,
    }
}

/// A background shell a command left running: the command, and the
/// `tool_use_id` of the card its further output is appended to, while it may
/// still be.
pub struct ShellSession {
    pub command: String,
    pub origin: Option<String>,
}

pub open spec fn opt_text(o: Option<String>) -> Option<Seq<char>> {
    match o {
        Some(s) => Some(s@),
        None => None,
    }
}

pub open spec fn session_view(s: ShellSession) -> (Seq<char>, Option<Seq<char>>) {
    (s.command@, opt_text(s.origin))
}

/// The known sessions by id. A later entry for an id replaces the earlier.
pub struct SessionTable {
    pub entries: Vec<(String, ShellSession)>,
}

/// The entry for `key` among `entries`, the first such.
pub open spec fn lookup_session(entries: Seq<(String, ShellSession)>, key: Seq<char>) -> Option<
    (Seq<char>, Option<Seq<char>>),
>
    decreases entries.len(),
{
    if entries.len() == 0 {
        None
    } else if entries[0].0@ == key {
        Some(session_view(entries[0].1))
    } else {
        lookup_session(entries.drop_first(), key)
    }
}

impl SessionTable {
    pub open spec fn lookup(&self, key: Seq<char>) -> Option<(Seq<char>, Option<Seq<char>>)> {
        lookup_session(self.entries@, key)
    }

    pub fn new() -> (r: Self)
        ensures
            forall|k: Seq<char>| #[trigger] r.lookup(k) is None,
    {
        SessionTable { entries: Vec::new() }
    }

    fn position(&self, key: &str) -> (r: Option<usize>)
        ensures
            match r {
                Some(i) => i < self.entries@.len() && self.entries@[i as int].0@ == key@
                    && self.lookup(key@) == Some(session_view(self.entries@[i as int].1))
                    && forall|j: int| 0 <= j < i ==> self.entries@[j].0@ != key@,
                None => self.lookup(key@) is None && forall|j: int|
                    0 <= j < self.entries@.len() ==> self.entries@[j].0@ != key@,
            },
    {
        let mut i: usize = 0;
        proof {
            assert(self.entries@.skip(0) =~= self.entries@);
        }
        while i < self.entries.len()
            invariant
                i <= self.entries@.len(),
                self.lookup(key@) == lookup_session(self.entries@.skip(i as int), key@),
                forall|j: int| 0 <= j < i ==> self.entries@[j].0@ != key@,
            decreases self.entries.len() - i,
        {
            proof {
                assert(self.entries@.skip(i as int).drop_first() =~= self.entries@.skip(i + 1));
                assert(self.entries@.skip(i as int)[0] == self.entries@[i as int]);
            }
            if crate::text::str_eq(self.entries[i].0.as_str(), key) {
                return Some(i);
            }
            i += 1;
        }
        None
    }

    /// The session an id names.
    pub fn get(&self, key: &str) -> (r: Option<&ShellSession>)
        ensures
            match r {
                Some(s) => self.lookup(key@) == Some(session_view(*s)),
                None => self.lookup(key@) is None,
            },
    {
        match self.position(key) {
            Some(i) => Some(&self.entries[i].1),
            None => None,
        }
    }

    /// Names `key` by `value`, replacing what it named before.
    pub fn insert(&mut self, key: String, value: ShellSession)
        ensures
            final(self).lookup(key@) == Some(session_view(value)),
            forall|k: Seq<char>| k != key@ ==> #[trigger] final(self).lookup(k) == old(self).lookup(k),
    {
        let ghost kv = key@;
        let ghost v = session_view(value);
        match self.position(key.as_str()) {
            Some(i) => {
                let ghost before = self.entries@;
                self.entries.set(i, (key, value));
                proof {
                    lemma_lookup_set(before, i as int, kv, v, self.entries@);
                }
            },
            None => {
                let ghost before = self.entries@;
                self.entries.push((key, value));
                proof {
                    lemma_lookup_push(before, kv, v, self.entries@);
                }
            },
        }
    }

    /// Ends the folding into `origin`: every session whose further output
    /// went to that card no longer has a card to fold into.
    pub fn close_origin(&mut self, origin: &str)
        ensures
            forall|k: Seq<char>| #[trigger] final(self).lookup(k) == close_entry(old(self).lookup(k), origin@),
    {
        let ghost before = self.entries@;
        let mut i: usize = 0;
        while i < self.entries.len()
            invariant
                i <= self.entries@.len(),
                self.entries@.len() == before.len(),
                forall|j: int| 0 <= j < self.entries@.len() ==> (#[trigger] self.entries@[j]).0 == before[j].0,
                forall|j: int| 0 <= j < self.entries@.len() ==> (#[trigger] self.entries@[j]).1.command == before[j].1.command,
                forall|j: int| 0 <= j < i ==> opt_text((#[trigger] self.entries@[j]).1.origin) == if opt_text(before[j].1.origin)
                    == Some(origin@) {
                    None
                } else {
                    opt_text(before[j].1.origin)
                },
                forall|j: int| i <= j < self.entries@.len() ==> opt_text((#[trigger] self.entries@[j]).1.origin) == opt_text(before[j].1.origin),
            decreases self.entries.len() - i,
        {
            let matches = match &self.entries[i].1.origin {
                Some(o) => crate::text::str_eq(o.as_str(), origin),
                None => false,
            };
            if matches {
                let (k, s) = self.entries.remove(i);
                let command = s.command;
                self.entries.insert(i, (k, ShellSession { command, origin: None }));
            }
            i += 1;
        }
        proof {
            assert forall|k: Seq<char>| #[trigger] self.lookup(k) == close_entry(lookup_session(before, k), origin@) by {
                lemma_lookup_closed(before, self.entries@, origin@, k);
            }
        }
    }
}

proof fn lemma_lookup_set(
    before: Seq<(String, ShellSession)>,
    i: int,
    key: Seq<char>,
    v: (Seq<char>, Option<Seq<char>>),
    after: Seq<(String, ShellSession)>,
)
    requires
        0 <= i < before.len(),
        before[i].0@ == key,
        forall|j: int| 0 <= j < i ==> before[j].0@ != key,
        after.len() == before.len(),
        after[i].0@ == key,
        session_view(after[i].1) == v,
        forall|j: int| 0 <= j < before.len() && j != i ==> after[j] == before[j],
    ensures
        lookup_session(after, key) == Some(v),
        forall|k: Seq<char>| k != key ==> #[trigger] lookup_session(after, k) == lookup_session(before, k),
    decreases before.len(),
{
    if i > 0 {
        lemma_lookup_set(before.drop_first(), i - 1, key, v, after.drop_first());
        assert forall|k: Seq<char>| k != key implies #[trigger] lookup_session(after, k) == lookup_session(before, k) by {
            assert(after[0] == before[0]);
            if before[0].0@ != k {
                assert(lookup_session(after.drop_first(), k) == lookup_session(before.drop_first(), k));
            }
        }
    } else {
        assert forall|k: Seq<char>| k != key implies #[trigger] lookup_session(after, k) == lookup_session(before, k) by {
            assert(after.drop_first() =~= before.drop_first());
        }
    }
}

proof fn lemma_lookup_push(
    before: Seq<(String, ShellSession)>,
    key: Seq<char>,
    v: (Seq<char>, Option<Seq<char>>),
    after: Seq<(String, ShellSession)>,
)
    requires
        forall|j: int| 0 <= j < before.len() ==> before[j].0@ != key,
        after.len() == before.len() + 1,
        after[before.len() as int].0@ == key,
        session_view(after[before.len() as int].1) == v,
        forall|j: int| 0 <= j < before.len() ==> after[j] == before[j],
    ensures
        lookup_session(after, key) == Some(v),
        forall|k: Seq<char>| k != key ==> #[trigger] lookup_session(after, k) == lookup_session(before, k),
    decreases before.len(),
{
    if before.len() > 0 {
        lemma_lookup_push(before.drop_first(), key, v, after.drop_first());
        assert forall|k: Seq<char>| k != key implies #[trigger] lookup_session(after, k) == lookup_session(before, k) by {
            assert(after[0] == before[0]);
            assert(lookup_session(after.drop_first(), k) == lookup_session(before.drop_first(), k));
        }
    } else {
        assert forall|k: Seq<char>| k != key implies #[trigger] lookup_session(after, k) == lookup_session(before, k) by {
            assert(after.drop_first().len() == 0);
            assert(lookup_session(after.drop_first(), k) is None);
        }
        assert(after[0].0@ == key);
    }
}

proof fn lemma_lookup_closed(
    before: Seq<(String, ShellSession)>,
    after: Seq<(String, ShellSession)>,
    origin: Seq<char>,
    k: Seq<char>,
)
    requires
        after.len() == before.len(),
        forall|j: int| 0 <= j < after.len() ==> (#[trigger] after[j]).0 == before[j].0,
        forall|j: int| 0 <= j < after.len() ==> (#[trigger] after[j]).1.command == before[j].1.command,
        forall|j: int| 0 <= j < after.len() ==> opt_text((#[trigger] after[j]).1.origin) == if opt_text(before[j].1.origin)
            == Some(origin) {
            None
        } else {
            opt_text(before[j].1.origin)
        },
    ensures
        lookup_session(after, k) == close_entry(lookup_session(before, k), origin),
    decreases before.len(),
{
    if before.len() > 0 {
        assert(after[0].0 == before[0].0);
        assert(after[0].1.command == before[0].1.command);
        let a1 = after.drop_first();
        let b1 = before.drop_first();
        assert forall|j: int| 0 <= j < a1.len() implies (#[trigger] a1[j]).0 == b1[j].0 by {
            assert(a1[j] == after[j + 1]);
        }
        assert forall|j: int| 0 <= j < a1.len() implies (#[trigger] a1[j]).1.command == b1[j].1.command by {
            assert(a1[j] == after[j + 1]);
        }
        assert forall|j: int| 0 <= j < a1.len() implies opt_text((#[trigger] a1[j]).1.origin) == if opt_text(b1[j].1.origin)
            == Some(origin) {
            None
        } else {
            opt_text(b1[j].1.origin)
        } by {
            assert(a1[j] == after[j + 1]);
        }
        lemma_lookup_closed(b1, a1, origin, k);
    }
}

/// Records `id → command` for every session the command's output announced,
/// and the chunk ids of that output as aliases of them, with `origin` as the
/// card their further output is appended to. Nothing is recorded for an
/// empty command or an output that announced no session.
pub open spec fn announces(command: Seq<char>, announced: Seq<Seq<char>>) -> bool {
    trim(command).len() > 0 && announced.len() > 0
}

pub fn register_announced_sessions(
    command: &str,
    origin: &str,
    announced: &Vec<String>,
    chunk_ids: &Vec<String>,
    sessions: &mut SessionTable,
)
    ensures
        !announces(command@, announced@.map_values(|s: String| s@)) ==> forall|k: Seq<char>|
            #[trigger] final(sessions).lookup(k) == old(sessions).lookup(k),
        announces(command@, announced@.map_values(|s: String| s@)) ==> forall|k: Seq<char>|
            #[trigger] final(sessions).lookup(k) == if announced@.map_values(|s: String| s@).contains(k)
                || chunk_ids@.map_values(|s: String| s@).contains(k) {
                Some((command@, Some(origin@)))
            } else {
                old(sessions).lookup(k)
            },
{
    let t = trim_chars(chars_of(command).as_slice());
    if t.len() == 0 || announced.len() == 0 {
        return;
    }
    let ghost start = *sessions;
    let ghost ann = announced@.map_values(|s: String| s@);
    let ghost chk = chunk_ids@.map_values(|s: String| s@);
    let mut i: usize = 0;
    while i < announced.len()
        invariant
            i <= announced@.len(),
            ann == announced@.map_values(|s: String| s@),
            forall|k: Seq<char>| #[trigger] sessions.lookup(k) == if ann.subrange(0, i as int).contains(k) {
                Some((command@, Some(origin@)))
            } else {
                start.lookup(k)
            },
        decreases announced.len() - i,
    {
        sessions.insert(
            announced[i].clone(),
            ShellSession { command: command.to_owned(), origin: Some(origin.to_owned()) },
        );
        proof {
            assert forall|k: Seq<char>| #[trigger] sessions.lookup(k) == if ann.subrange(0, i + 1).contains(k) {
                Some((command@, Some(origin@)))
            } else {
                start.lookup(k)
            } by {
                if k == ann[i as int] {
                    assert(ann.subrange(0, i + 1)[i as int] == k);
                } else {
                    if ann.subrange(0, i + 1).contains(k) {
                        let j = choose|j: int| 0 <= j < i + 1 && #[trigger] ann.subrange(0, i + 1)[j] == k;
                        assert(ann.subrange(0, i as int)[j] == k);
                    }
                    if ann.subrange(0, i as int).contains(k) {
                        let j = choose|j: int| 0 <= j < i && #[trigger] ann.subrange(0, i as int)[j] == k;
                        assert(ann.subrange(0, i + 1)[j] == k);
                    }
                }
            }
        }
        i += 1;
    }
    proof {
        assert(ann.subrange(0, ann.len() as int) =~= ann);
    }
    let mut j: usize = 0;
    while j < chunk_ids.len()
        invariant
            j <= chunk_ids@.len(),
            ann == announced@.map_values(|s: String| s@),
            chk == chunk_ids@.map_values(|s: String| s@),
            forall|k: Seq<char>| #[trigger] sessions.lookup(k) == if ann.contains(k) || chk.subrange(0, j as int).contains(k) {
                Some((command@, Some(origin@)))
            } else {
                start.lookup(k)
            },
        decreases chunk_ids.len() - j,
    {
        sessions.insert(
            chunk_ids[j].clone(),
            ShellSession { command: command.to_owned(), origin: Some(origin.to_owned()) },
        );
        proof {
            assert forall|k: Seq<char>| #[trigger] sessions.lookup(k) == if ann.contains(k) || chk.subrange(0, j + 1).contains(k) {
                Some((command@, Some(origin@)))
            } else {
                start.lookup(k)
            } by {
                if k == chk[j as int] {
                    assert(chk.subrange(0, j + 1)[j as int] == k);
                } else {
                    if chk.subrange(0, j + 1).contains(k) {
                        let m = choose|m: int| 0 <= m < j + 1 && #[trigger] chk.subrange(0, j + 1)[m] == k;
                        assert(chk.subrange(0, j as int)[m] == k);
                    }
                    if chk.subrange(0, j as int).contains(k) {
                        let m = choose|m: int| 0 <= m < j && #[trigger] chk.subrange(0, j as int)[m] == k;
                        assert(chk.subrange(0, j + 1)[m] == k);
                    }
                }
            }
        }
        j += 1;
    }
    proof {
        assert(chk.subrange(0, chk.len() as int) =~= chk);
    }
}

/// A map from text to text; a later entry for a key replaces the earlier.
pub struct TextMap {
    pub entries: Vec<(String, String)>,
}

/// Calls that only collect more of an earlier command's output: poll
/// `tool_use_id` → `tool_use_id` of the card holding that command.
pub type PollOrigins = TextMap;

/// The value recorded for `key` among `entries`, the first such.
pub open spec fn lookup_poll(entries: Seq<(String, String)>, key: Seq<char>) -> Option<Seq<char>>
    decreases entries.len(),
{
    if entries.len() == 0 {
        None
    } else if entries[0].0@ == key {
        Some(entries[0].1@)
    } else {
        lookup_poll(entries.drop_first(), key)
    }
}

proof fn lemma_poll_set(
    before: Seq<(String, String)>,
    i: int,
    key: Seq<char>,
    v: Seq<char>,
    after: Seq<(String, String)>,
)
    requires
        0 <= i < before.len(),
        before[i].0@ == key,
        forall|j: int| 0 <= j < i ==> before[j].0@ != key,
        after.len() == before.len(),
        after[i].0@ == key,
        after[i].1@ == v,
        forall|j: int| 0 <= j < before.len() && j != i ==> after[j] == before[j],
    ensures
        lookup_poll(after, key) == Some(v),
        forall|k: Seq<char>| k != key ==> #[trigger] lookup_poll(after, k) == lookup_poll(before, k),
    decreases before.len(),
{
    if i > 0 {
        lemma_poll_set(before.drop_first(), i - 1, key, v, after.drop_first());
        assert forall|k: Seq<char>| k != key implies #[trigger] lookup_poll(after, k) == lookup_poll(before, k) by {
            assert(after[0] == before[0]);
            assert(lookup_poll(after.drop_first(), k) == lookup_poll(before.drop_first(), k));
        }
    } else {
        assert forall|k: Seq<char>| k != key implies #[trigger] lookup_poll(after, k) == lookup_poll(before, k) by {
            assert(after.drop_first() =~= before.drop_first());
        }
    }
}

proof fn lemma_poll_push(before: Seq<(String, String)>, key: Seq<char>, v: Seq<char>, after: Seq<(String, String)>)
    requires
        forall|j: int| 0 <= j < before.len() ==> before[j].0@ != key,
        after.len() == before.len() + 1,
        after[before.len() as int].0@ == key,
        after[before.len() as int].1@ == v,
        forall|j: int| 0 <= j < before.len() ==> after[j] == before[j],
    ensures
        lookup_poll(after, key) == Some(v),
        forall|k: Seq<char>| k != key ==> #[trigger] lookup_poll(after, k) == lookup_poll(before, k),
    decreases before.len(),
{
    if before.len() > 0 {
        lemma_poll_push(before.drop_first(), key, v, after.drop_first());
        assert forall|k: Seq<char>| k != key implies #[trigger] lookup_poll(after, k) == lookup_poll(before, k) by {
            assert(after[0] == before[0]);
            assert(lookup_poll(after.drop_first(), k) == lookup_poll(before.drop_first(), k));
        }
    } else {
        assert forall|k: Seq<char>| k != key implies #[trigger] lookup_poll(after, k) == lookup_poll(before, k) by {
            assert(after.drop_first().len() == 0);
            assert(lookup_poll(after.drop_first(), k) is None);
        }
        assert(after[0].0@ == key);
    }
}

impl TextMap {
    pub open spec fn lookup(&self, key: Seq<char>) -> Option<Seq<char>> {
        lookup_poll(self.entries@, key)
    }

    pub fn new() -> (r: Self)
        ensures
            r.entries@.len() == 0,
    {
        TextMap { entries: Vec::new() }
    }

    fn position(&self, key: &str) -> (r: Option<usize>)
        ensures
            match r {
                Some(i) => i < self.entries@.len() && self.entries@[i as int].0@ == key@
                    && self.lookup(key@) == Some(self.entries@[i as int].1@)
                    && forall|j: int| 0 <= j < i ==> self.entries@[j].0@ != key@,
                None => self.lookup(key@) is None && forall|j: int|
                    0 <= j < self.entries@.len() ==> self.entries@[j].0@ != key@,
            },
    {
        let mut i: usize = 0;
        proof {
            assert(self.entries@.skip(0) =~= self.entries@);
        }
        while i < self.entries.len()
            invariant
                i <= self.entries@.len(),
                self.lookup(key@) == lookup_poll(self.entries@.skip(i as int), key@),
                forall|j: int| 0 <= j < i ==> self.entries@[j].0@ != key@,
            decreases self.entries.len() - i,
        {
            proof {
                assert(self.entries@.skip(i as int).drop_first() =~= self.entries@.skip(i + 1));
                assert(self.entries@.skip(i as int)[0] == self.entries@[i as int]);
            }
            if crate::text::str_eq(self.entries[i].0.as_str(), key) {
                return Some(i);
            }
            i += 1;
        }
        None
    }

    /// The value recorded for a key.
    pub fn get(&self, key: &str) -> (r: Option<&String>)
        ensures
            match r {
                Some(s) => self.lookup(key@) == Some(s@),
                None => self.lookup(key@) is None,
            },
    {
        match self.position(key) {
            Some(i) => Some(&self.entries[i].1),
            None => None,
        }
    }

    /// Records `value` for `key`, replacing an earlier record.
    pub fn insert(&mut self, key: String, value: String)
        ensures
            final(self).lookup(key@) == Some(value@),
            forall|k: Seq<char>| k != key@ ==> #[trigger] final(self).lookup(k) == old(self).lookup(k),
    {
        let ghost kv = key@;
        let ghost v = value@;
        match self.position(key.as_str()) {
            Some(i) => {
                let ghost before = self.entries@;
                self.entries.set(i, (key, value));
                proof {
                    lemma_poll_set(before, i as int, kv, v, self.entries@);
                }
            },
            None => {
                let ghost before = self.entries@;
                self.entries.push((key, value));
                proof {
                    lemma_poll_push(before, kv, v, self.entries@);
                }
            },
        }
    }
}

/// The card a call's session still folds into, if any.
pub open spec fn call_origin(args: Option<Json>, sessions: SessionTable) -> Option<Seq<char>> {
    match args {
        Some(a) => match session_id_of(a) {
            Some(sid) => match sessions.lookup(sid) {
                Some(entry) => entry.1,
                None => None,
            },
            None => None,
        },
        None => None,
    }
}

/// The sessions after folding into `origin` ended.
pub open spec fn origin_closed(before: SessionTable, after: SessionTable, origin: Seq<char>) -> bool {
    forall|k: Seq<char>| #[trigger] after.lookup(k) == close_entry(before.lookup(k), origin)
}

pub open spec fn close_entry(e: Option<(Seq<char>, Option<Seq<char>>)>, origin: Seq<char>) -> Option<
    (Seq<char>, Option<Seq<char>>),
> {
    match e {
        Some(entry) => Some((entry.0, if entry.1 == Some(origin) { None } else { entry.1 })),
        None => None,
    }
}

/// `after` records `origin` for `id` and is `before` elsewhere.
pub open spec fn poll_recorded(before: PollOrigins, after: PollOrigins, id: Seq<char>, origin: Seq<char>) -> bool {
    &&& after.lookup(id) == Some(origin)
    &&& forall|k: Seq<char>| k != id ==> #[trigger] after.lookup(k) == before.lookup(k)
}

pub open spec fn note_effect(
    tool_use_id: Option<Seq<char>>,
    args: Option<Json>,
    s0: SessionTable,
    s1: SessionTable,
    p0: PollOrigins,
    p1: PollOrigins,
) -> bool {
    match call_origin(args, s0) {
        None => s1 == s0 && p1 == p0,
        Some(o) => if pure_poll(args->0) {
            s1 == s0 && match tool_use_id {
                Some(id) => poll_recorded(p0, p1, id, o),
                None => p1 == p0,
            }
        } else {
            p1 == p0 && origin_closed(s0, s1, o)
        },
    }
}

/// What a `wait` / `write_stdin` does to the bookkeeping: nothing unless its
/// arguments name a session whose output still goes to a card; then a pure
/// poll is recorded for folding into that card, and any other call (keys
/// sent, session terminated) ends the folding for every id of that session.
pub fn note_shell_session_call(
    tool_use_id: Option<&str>,
    args: Option<&Json>,
    sessions: &mut SessionTable,
    poll_origins: &mut PollOrigins,
)
    ensures
        note_effect(
            match tool_use_id {
                Some(id) => Some(id@),
                None => None,
            },
            match args {
                Some(a) => Some(*a),
                None => None,
            },
            *old(sessions),
            *final(sessions),
            *old(poll_origins),
            *final(poll_origins),
        ),
{
    let a = match args {
        Some(a) => a,
        None => return,
    };
    let sid = match shell_session_id(a) {
        Some(s) => s,
        None => return,
    };
    let origin = match sessions.get(sid.as_str()) {
        Some(s) => match &s.origin {
            Some(o) => o.clone(),
            None => return,
        },
        None => return,
    };
    if is_pure_poll(a) {
        if let Some(id) = tool_use_id {
            poll_origins.insert(id.to_owned(), origin);
        }
        return;
    }
    sessions.close_origin(origin.as_str());
}

/// The key under which a session tool's input carries the command that
/// started the session it addresses.
pub const SESSION_COMMAND_KEY: &'static str = "session_command";

pub open spec fn not_key(key: Seq<char>) -> spec_fn((Seq<char>, JsonView)) -> bool {
    |m: (Seq<char>, JsonView)| m.0 != key
}

/// An argument object annotated with the command of its session: the
/// members other than `session_command`, then `session_command`.
pub open spec fn annotated_args(args: Json, command: Seq<char>) -> JsonView {
    JsonView::Object(
        members_view(args->Object_0@, args->Object_0@.len() as int).filter(
            not_key(SESSION_COMMAND_KEY@),
        ).push((SESSION_COMMAND_KEY@, JsonView::Str(command))),
    )
}

pub open spec fn entry_command(e: (Seq<char>, Option<Seq<char>>)) -> Seq<char> {
    e.0
}

/// The command a session tool's arguments address, when they are an object
/// naming a known session.
pub open spec fn addressed_command(args: Json, sessions: SessionTable) -> Option<Seq<char>> {
    if args is Object && session_id_of(args) is Some && sessions.lookup(session_id_of(args)->0) is Some {
        Some(entry_command(sessions.lookup(session_id_of(args)->0)->0))
    } else {
        None
    }
}

/// A `wait` / `write_stdin` argument JSON annotated with the command that
/// started the session it addresses, so its card is titled by that command;
/// `None` when the arguments are not an object, name no session, or name one
/// never announced.
pub fn annotate_shell_session_args(args: &Json, sessions: &SessionTable) -> (r: Option<String>)
    ensures
        match addressed_command(*args, *sessions) {
            Some(c) => r matches Some(t) && t@ == json_text(annotated_args(*args, c)),
            None => r is None,
        },
{
    let fields = match args {
        Json::Object(fields) => fields,
        _ => return None,
    };
    let sid = match shell_session_id(args) {
        Some(s) => s,
        None => return None,
    };
    let command = match sessions.get(sid.as_str()) {
        Some(s) => s.command.clone(),
        None => return None,
    };
    let ghost pred = not_key(SESSION_COMMAND_KEY@);
    let mut out: Vec<(String, Json)> = Vec::new();
    let mut i: usize = 0;
    while i < fields.len()
        invariant
            i <= fields@.len(),
            *args == Json::Object(*fields),
            pred == not_key(SESSION_COMMAND_KEY@),
            members_view(out@, out@.len() as int) == members_view(fields@, i as int).filter(pred),
        decreases fields.len() - i,
    {
        let ghost before = out@;
        let keep = !crate::text::str_eq(fields[i].0.as_str(), SESSION_COMMAND_KEY);
        if keep {
            let c = fields[i].1.copy();
            out.push((fields[i].0.clone(), c));
            proof {
                lemma_members_view_prefix(out@, before, before.len() as int);
            }
        }
        proof {
            let mv = members_view(fields@, i as int + 1);
            assert(mv.drop_last() == members_view(fields@, i as int));
            reveal(Seq::filter);
            assert(mv.last() == (fields@[i as int].0@, json_view(fields@[i as int].1)));
        }
        i += 1;
    }
    let ghost before = out@;
    let ghost cv = command@;
    assert(addressed_command(*args, *sessions) == Some(cv));
    out.push((SESSION_COMMAND_KEY.to_owned(), Json::Str(command)));
    proof {
        lemma_members_view_prefix(out@, before, before.len() as int);
        assert(members_view(fields@, fields@.len() as int) == members_view(args->Object_0@, args->Object_0@.len() as int));
        assert(out@[before.len() as int].0@ == SESSION_COMMAND_KEY@);
        assert(json_view(out@[before.len() as int].1) == JsonView::Str(cv));
        assert(members_view(out@, out@.len() as int) == members_view(out@, before.len() as int).push(
            (SESSION_COMMAND_KEY@, JsonView::Str(cv)),
        ));
    }
    let value = Json::Object(out);
    assert(json_view(value) == annotated_args(*args, cv));
    Some(render_json(&value))
}

/// The text a recovered call's card shows: for the exec family
/// (`exec_command`, `wait`, `write_stdin`) the chunk without its exec
/// envelope when it has one; any other tool's chunk as it came.
pub open spec fn chunk_display(tool_name: Seq<char>, chunk: Seq<char>) -> Seq<char> {
    if tool_name != "exec_command"@ && !session_tool(tool_name) {
        chunk
    } else {
        match envelope_stripped(chunk) {
            Some(s) => s,
            None => chunk,
        }
    }
}

pub fn exec_chunk_display(tool_name: &str, chunk: String) -> (r: String)
    ensures
        r@ == chunk_display(tool_name@, chunk@),
{
    if !crate::text::str_eq(tool_name, "exec_command") && !is_shell_session_tool(tool_name) {
        return chunk;
    }
    match strip_exec_envelope(chunk.as_str()) {
        Some(s) => s,
        None => chunk,
    }
}

/// Records the sessions a recovered call's output announced. Only an
/// `exec_command` whose arguments stood inline in the script registers
/// anything: its `input_preview` is then the command that ran.
pub fn register_shell_sessions(
    tool_name: &str,
    args_inline: bool,
    input_preview: &str,
    origin: &str,
    announced: &Vec<String>,
    chunk_ids: &Vec<String>,
    sessions: &mut SessionTable,
)
    ensures
        !(tool_name@ == "exec_command"@ && args_inline && announces(
            input_preview@,
            announced@.map_values(|s: String| s@),
        )) ==> forall|k: Seq<char>| #[trigger] final(sessions).lookup(k) == old(sessions).lookup(k),
        tool_name@ == "exec_command"@ && args_inline && announces(
            input_preview@,
            announced@.map_values(|s: String| s@),
        ) ==> forall|k: Seq<char>|
            #[trigger] final(sessions).lookup(k) == if announced@.map_values(|s: String| s@).contains(k)
                || chunk_ids@.map_values(|s: String| s@).contains(k) {
                Some((input_preview@, Some(origin@)))
            } else {
                old(sessions).lookup(k)
            },
{
    if !crate::text::str_eq(tool_name, "exec_command") || !args_inline {
        return;
    }
    register_announced_sessions(input_preview, origin, announced, chunk_ids, sessions);
}

/// The input a recovered session tool's card shows, with the effect of the
/// call on the session bookkeeping. Other tools keep their input and touch
/// nothing. A session tool's input is read as JSON: text that is not JSON
/// is kept and touches nothing; otherwise the call is noted (see
/// `note_shell_session_call`) and its input is annotated with the command of
/// the session it addresses, when that session is known.
pub fn shell_session_input_preview(
    tool_name: &str,
    input_preview: &str,
    tool_use_id: &str,
    sessions: &mut SessionTable,
    poll_origins: &mut PollOrigins,
) -> (r: String)
    ensures
        !session_tool(tool_name@) || json_parse_result(input_preview@) is None ==> {
            &&& r@ == input_preview@
            &&& *final(sessions) == *old(sessions)
            &&& *final(poll_origins) == *old(poll_origins)
        },
        session_tool(tool_name@) ==> (json_parse_result(input_preview@) matches Some(a) ==> {
            &&& note_effect(
                Some(tool_use_id@),
                Some(a),
                *old(sessions),
                *final(sessions),
                *old(poll_origins),
                *final(poll_origins),
            )
            &&& r@ == match addressed_command(a, *final(sessions)) {
                Some(c) => json_text(annotated_args(a, c)),
                None => input_preview@,
            }
        }),
{
    if !is_shell_session_tool(tool_name) {
        return input_preview.to_owned();
    }
    let args = parse_json(input_preview);
    match args {
        None => input_preview.to_owned(),
        Some(a) => {
            note_shell_session_call(Some(tool_use_id), Some(&a), sessions, poll_origins);
            match annotate_shell_session_args(&a, sessions) {
                Some(t) => t,
                None => input_preview.to_owned(),
            }
        },
    }
}

} // verus!
