//! Path rules: the Windows verbatim-prefix rewrite, the resolution order of
//! the codeg-owned directories, and the legacy desktop data directory
//! migration protocol.
//!
//! Paths are carried as text. Joining a component to a directory is left to
//! `std::path`, whose separator is the platform's; what is stated of a join
//! holds on every platform.
use vstd::prelude::*;
use crate::text::{
    chars_of, eq_ignore_ascii_case, eq_ignore_ascii_case_chars, ends_with, is_alpha, slice_chars,
    starts_with, starts_with_chars, string_of,
};

verus! {

/// Name of the Prooflane-branded desktop data directory.
pub const PROOFLANE_DATA_DIR_NAME: &'static str = "prooflane";

/// Name of the identifier-derived desktop data directory used before the
/// Prooflane branding.
pub const LEGACY_DESKTOP_DATA_DIR_NAME: &'static str = "io.github.xuhengmao.prooflane";

/// Name of the per-user codeg directory under the home directory.
pub const CODEG_DIR_NAME: &'static str = ".codeg";

/// `\\?\UNC\`, the verbatim prefix of a network share.
pub open spec fn verbatim_unc_prefix() -> Seq<char> {
    seq!['\\', '\\', '?', '\\', 'U', 'N', 'C', '\\']
}

/// `\\?\`, the verbatim prefix.
pub open spec fn verbatim_prefix() -> Seq<char> {
    seq!['\\', '\\', '?', '\\']
}

/// The path with its verbatim prefix dropped: `\\?\UNC\server\share` (in any
/// ASCII casing of `UNC`) becomes `\\server\share`, `\\?\C:\dir` becomes
/// `C:\dir`, and every other path is left as it is.
pub open spec fn simplified_path(p: Seq<char>) -> Seq<char> {
    if p.len() >= 8 && eq_ignore_ascii_case(p.subrange(0, 8), verbatim_unc_prefix()) {
        seq!['\\', '\\'] + p.subrange(8, p.len() as int)
    } else if starts_with(p, verbatim_prefix()) && p.len() >= 6 && is_alpha(p[4]) && p[5] == ':' {
        p.subrange(4, p.len() as int)
    } else {
        p
    }
}

/// Drop the Windows extended-length ("verbatim") prefix from a path, so the
/// plain form is what leaves this process. Only the drive and network-share
/// prefixes have a plain equivalent; every other path comes back unchanged.
pub fn simplify_verbatim_path(path: &str) -> (r: String)
    ensures
        r@ == simplified_path(path@),
{
    let text = chars_of(path);
    let unc = vec!['\\', '\\', '?', '\\', 'U', 'N', 'C', '\\'];
    let plain = vec!['\\', '\\', '?', '\\'];
    assert(unc@ =~= verbatim_unc_prefix());
    assert(plain@ =~= verbatim_prefix());
    if text.len() >= 8 {
        let head = slice_chars(&text, 0, 8);
        if eq_ignore_ascii_case_chars(&head, &unc) {
            let mut out = vec!['\\', '\\'];
            let mut i: usize = 8;
            let n = text.len();
            while i < n
                invariant
                    8 <= i <= n,
                    n == text@.len(),
                    out@ == seq!['\\', '\\'] + text@.subrange(8, i as int),
                decreases n - i,
            {
                out.push(text[i]);
                i += 1;
                proof {
                    assert(out@ =~= seq!['\\', '\\'] + text@.subrange(8, i as int));
                }
            }
            return string_of(&out);
        }
    }
    if starts_with_chars(&text, &plain) && text.len() >= 6 {
        let c = text[4];
        if (('a' <= c && c <= 'z') || ('A' <= c && c <= 'Z')) && text[5] == ':' {
            let n = text.len();
            let rest = slice_chars(&text, 4, n);
            return string_of(&rest);
        }
    }
    string_of(&text)
}

/// A path that `Path::join` appends rather than puts in the directory's
/// place: it does not start with a separator and holds no `:` (so it has
/// neither a root nor a Windows prefix).
pub open spec fn relative_text(rel: Seq<char>) -> bool {
    &&& (rel.len() > 0 ==> rel[0] != '/' && rel[0] != '\\')
    &&& forall|k: int| 0 <= k < rel.len() ==> rel[k] != ':'
}

/// One plain component: not empty, without separators or `:`, and neither
/// `.` nor `..`.
pub open spec fn single_component(c: Seq<char>) -> bool {
    &&& c.len() > 0
    &&& forall|k: int| 0 <= k < c.len() ==> c[k] != '/' && c[k] != '\\' && c[k] != ':'
    &&& c != seq!['.']
    &&& c != seq!['.', '.']
}

/// `Path::join` of a relative path onto a directory without a verbatim
/// prefix: the empty directory gives the path itself; a directory that ends
/// in `/` is followed by the path directly; any other directory is followed
/// by the path directly (a Windows directory that ends in `\` or is a bare
/// drive such as `C:`) or after one separator, `/` or `\`, the platform's.
pub open spec fn joined_under(r: Seq<char>, dir: Seq<char>, rel: Seq<char>) -> bool {
    if dir.len() == 0 {
        r == rel
    } else if dir.last() == '/' {
        r == dir + rel
    } else {
        ||| r == dir + rel
        ||| r == dir + seq!['/'] + rel
        ||| r == dir + seq!['\\'] + rel
    }
}

/// `Path::join`. Of a relative path (see `relative_text`) joined onto a
/// directory without a verbatim prefix, the result is the text that
/// `joined_under` describes: `std` appends the path, with the platform's
/// separator where the directory does not end in one. A verbatim directory
/// is rebuilt from its components, with `.` and `..` resolved away, so of it
/// only this is stated: a single plain component ends the result.
#[verifier::external_body]
pub(crate) fn join_path(dir: &str, rel: &str) -> (r: String)
    ensures
        single_component(rel@) ==> ends_with(r@, rel@),
        relative_text(rel@) && !starts_with(dir@, verbatim_prefix()) ==> joined_under(r@, dir@, rel@),
{
    std::path::Path::new(dir).join(rel).to_string_lossy().into_owned()
}

/// `dirs::home_dir`: the user's home directory, read from the environment
/// and the system's user database. Nothing is stated of the result: it
/// depends on the machine.
#[verifier::external_body]
pub(crate) fn home_dir() -> (r: Option<String>) {
    dirs::home_dir().map(|h| h.to_string_lossy().into_owned())
}

/// The value of an environment variable counts as set when it is present and
/// not empty.
pub open spec fn set_value(v: Option<String>) -> Option<Seq<char>> {
    match v {
        Some(s) => if s@.len() > 0 { Some(s@) } else { None },
        None => None,
    }
}

/// Where a codeg-owned directory is rooted.
#[derive(Debug, Clone, PartialEq, Eq)]
pub enum RootBase {
    /// `$CODEG_HOME`.
    Override(String),
    /// `$CODEG_DATA_DIR`, the server-mode data directory.
    DataDir(String),
    /// `~/.codeg`: the home directory, under which `.codeg` stands.
    Home(String),
    /// No home directory: the relative `.codeg`.
    Relative,
}

/// The resolution order of the codeg-owned directories: `$CODEG_HOME` when
/// set, then `$CODEG_DATA_DIR` when it is consulted and set, then the home
/// directory, and the relative `.codeg` when there is no home directory.
pub open spec fn root_base_of(
    codeg_home: Option<String>,
    data_dir: Option<String>,
    home: Option<String>,
) -> Option<(int, Seq<char>)> {
    if set_value(codeg_home) is Some {
        Some((0, set_value(codeg_home)->0))
    } else if set_value(data_dir) is Some {
        Some((1, set_value(data_dir)->0))
    } else {
        match home {
            Some(h) => Some((2, h@)),
            None => None,
        }
    }
}

pub open spec fn root_base_view(b: RootBase) -> Option<(int, Seq<char>)> {
    match b {
        RootBase::Override(s) => Some((0, s@)),
        RootBase::DataDir(s) => Some((1, s@)),
        RootBase::Home(s) => Some((2, s@)),
        RootBase::Relative => None,
    }
}

/// The root of the codeg-owned directories, given the values of
/// `$CODEG_HOME` and `$CODEG_DATA_DIR` (pass `None` for the latter where it is
/// not consulted) and the home directory.
pub fn choose_root_base(
    codeg_home: Option<String>,
    data_dir: Option<String>,
    home: Option<String>,
) -> (r: RootBase)
    ensures
        root_base_view(r) == root_base_of(codeg_home, data_dir, home),
{
    if let Some(custom) = codeg_home {
        if !custom.as_str().is_empty() {
            return RootBase::Override(custom);
        }
    }
    if let Some(data) = data_dir {
        if !data.as_str().is_empty() {
            return RootBase::DataDir(data);
        }
    }
    match home {
        Some(h) => RootBase::Home(h),
        None => RootBase::Relative,
    }
}

/// As `choose_root_base`, asking `dirs::home_dir` for the home directory
/// only when neither variable is set.
pub fn codeg_root_base(codeg_home: Option<String>, data_dir: Option<String>) -> (r: RootBase)
    ensures
        set_value(codeg_home) is Some ==> root_base_view(r) == root_base_of(
            codeg_home,
            data_dir,
            None,
        ),
        set_value(codeg_home) is None && set_value(data_dir) is Some ==> root_base_view(r)
            == root_base_of(codeg_home, data_dir, None),
        set_value(codeg_home) is None && set_value(data_dir) is None ==> (r is Home || r is Relative),
{
    if let Some(custom) = codeg_home {
        if !custom.as_str().is_empty() {
            return RootBase::Override(custom);
        }
    }
    if let Some(data) = data_dir {
        if !data.as_str().is_empty() {
            return RootBase::DataDir(data);
        }
    }
    match home_dir() {
        Some(h) => RootBase::Home(h),
        None => RootBase::Relative,
    }
}

/// What became of the legacy desktop data directory.
#[derive(Debug, Clone, Copy, PartialEq, Eq, Structural)]
pub enum DataDirMigrationOutcome {
    NotApplicable,
    LegacyDirectoryMissing,
    Migrated,
    MigratedReplacingEmptyTarget,
    SkippedTargetNotEmpty,
}

/// The effective desktop data directory, and what the migration did when it
/// ran (it does not run when an explicit override is present).
#[derive(Debug, Clone, PartialEq, Eq)]
pub struct PreparedDesktopDataDir {
    pub effective_data_dir: String,
    pub migration_outcome: Option<DataDirMigrationOutcome>,
}

/// One step of the legacy directory migration: a question about the file
/// system, an operation on it, or the end with its outcome.
#[derive(Debug, Clone, Copy, PartialEq, Eq, Structural)]
pub enum MigrationAction {
    /// Does the legacy directory exist?
    CheckLegacyExists,
    /// Does the branded directory exist?
    CheckTargetExists,
    /// Is the existing branded path a directory (not following links)?
    CheckTargetIsDir,
    /// Does the branded directory hold any entry?
    CheckTargetHasEntry,
    /// Remove the empty branded directory.
    RemoveEmptyTarget,
    /// Rename the legacy directory to the branded one.
    MoveLegacy { replaced_empty_target: bool },
    /// The migration is over.
    Finish(DataDirMigrationOutcome),
}

/// The first step: nothing to do unless the fallback is the legacy directory.
pub open spec fn first_step(applicable: bool) -> MigrationAction {
    if applicable {
        MigrationAction::CheckLegacyExists
    } else {
        MigrationAction::Finish(DataDirMigrationOutcome::NotApplicable)
    }
}

/// The step after `done`, given the answer to its question (for an operation,
/// `true` once it succeeded).
pub open spec fn step_after(done: MigrationAction, answer: bool) -> MigrationAction {
    match done {
        MigrationAction::CheckLegacyExists => if answer {
            MigrationAction::CheckTargetExists
        } else {
            MigrationAction::Finish(DataDirMigrationOutcome::LegacyDirectoryMissing)
        },
        MigrationAction::CheckTargetExists => if answer {
            MigrationAction::CheckTargetIsDir
        } else {
            MigrationAction::MoveLegacy { replaced_empty_target: false }
        },
        MigrationAction::CheckTargetIsDir => if answer {
            MigrationAction::CheckTargetHasEntry
        } else {
            MigrationAction::Finish(DataDirMigrationOutcome::SkippedTargetNotEmpty)
        },
        MigrationAction::CheckTargetHasEntry => if answer {
            MigrationAction::Finish(DataDirMigrationOutcome::SkippedTargetNotEmpty)
        } else {
            MigrationAction::RemoveEmptyTarget
        },
        MigrationAction::RemoveEmptyTarget => MigrationAction::MoveLegacy {
            replaced_empty_target: true,
        },
        MigrationAction::MoveLegacy { replaced_empty_target } => if replaced_empty_target {
            MigrationAction::Finish(DataDirMigrationOutcome::MigratedReplacingEmptyTarget)
        } else {
            MigrationAction::Finish(DataDirMigrationOutcome::Migrated)
        },
        MigrationAction::Finish(o) => MigrationAction::Finish(o),
    }
}

/// `Path::file_name`: the final component of a path, `None` when the path
/// ends in `..` or has no component after its root. Which characters
/// separate components is the platform's, so of a component only this is
/// stated: it is not empty and holds no `/`.
#[verifier::external_body]
fn final_component(path: &str) -> (r: Option<String>)
    ensures
        r matches Some(n) ==> n@.len() > 0 && forall|k: int| 0 <= k < n@.len() ==> n@[k] != '/',
{
    std::path::Path::new(path).file_name().map(|n| n.to_string_lossy().into_owned())
}

/// `Path::with_file_name`: the path with its final component replaced by
/// `name` (pushed when it has none). Stated: a single plain component ends
/// the result.
#[verifier::external_body]
fn with_final_component(path: &str, name: &str) -> (r: String)
    ensures
        single_component(name@) ==> ends_with(r@, name@),
{
    std::path::Path::new(path).with_file_name(name).to_string_lossy().into_owned()
}

/// The desktop data directory: Tauri's fallback with its final component
/// renamed to the Prooflane-branded name when that component is the legacy
/// identifier-derived name, and the fallback as it is otherwise.
pub fn branded_desktop_data_dir(tauri_fallback: &str) -> (r: String)
    ensures
        r@ == tauri_fallback@ || ends_with(r@, PROOFLANE_DATA_DIR_NAME@),
{
    if let Some(name) = final_component(tauri_fallback) {
        if crate::text::str_eq(name.as_str(), LEGACY_DESKTOP_DATA_DIR_NAME) {
            proof {
                reveal_strlit("prooflane");
                assert(PROOFLANE_DATA_DIR_NAME@.len() == 9);
                assert(PROOFLANE_DATA_DIR_NAME@ != seq!['.']);
                assert(PROOFLANE_DATA_DIR_NAME@ != seq!['.', '.']);
            }
            return with_final_component(tauri_fallback, PROOFLANE_DATA_DIR_NAME);
        }
    }
    tauri_fallback.to_owned()
}

/// Where the migration starts; `applicable` is whether the branded directory
/// differs from the fallback, that is whether the fallback is the legacy one.
pub fn first_migration_action(applicable: bool) -> (r: MigrationAction)
    ensures
        r == first_step(applicable),
{
    if applicable {
        MigrationAction::CheckLegacyExists
    } else {
        MigrationAction::Finish(DataDirMigrationOutcome::NotApplicable)
    }
}

/// The step after `done`, once the file system answered it. A failed
/// operation ends the migration with its error before this is asked.
pub fn next_migration_action(done: MigrationAction, answer: bool) -> (r: MigrationAction)
    ensures
        r == step_after(done, answer),
{
    match done {
        MigrationAction::CheckLegacyExists => if answer {
            MigrationAction::CheckTargetExists
        } else {
            MigrationAction::Finish(DataDirMigrationOutcome::LegacyDirectoryMissing)
        },
        MigrationAction::CheckTargetExists => if answer {
            MigrationAction::CheckTargetIsDir
        } else {
            MigrationAction::MoveLegacy { replaced_empty_target: false }
        },
        MigrationAction::CheckTargetIsDir => if answer {
            MigrationAction::CheckTargetHasEntry
        } else {
            MigrationAction::Finish(DataDirMigrationOutcome::SkippedTargetNotEmpty)
        },
        MigrationAction::CheckTargetHasEntry => if answer {
            MigrationAction::Finish(DataDirMigrationOutcome::SkippedTargetNotEmpty)
        } else {
            MigrationAction::RemoveEmptyTarget
        },
        MigrationAction::RemoveEmptyTarget => MigrationAction::MoveLegacy {
            replaced_empty_target: true,
        },
        MigrationAction::MoveLegacy { replaced_empty_target } => if replaced_empty_target {
            MigrationAction::Finish(DataDirMigrationOutcome::MigratedReplacingEmptyTarget)
        } else {
            MigrationAction::Finish(DataDirMigrationOutcome::Migrated)
        },
        MigrationAction::Finish(o) => MigrationAction::Finish(o),
    }
}

/// The steps taken for a given sequence of answers, from `action` on, until
/// the answers run out or the migration finishes.
pub open spec fn migration_run(action: MigrationAction, answers: Seq<bool>) -> Seq<MigrationAction>
    decreases answers.len(),
{
    if action is Finish || answers.len() == 0 {
        seq![action]
    } else {
        seq![action] + migration_run(step_after(action, answers[0]), answers.subrange(1, answers.len() as int))
    }
}

/// How many more steps can follow an action before the migration finishes.
pub open spec fn steps_left(action: MigrationAction) -> nat {
    match action {
        MigrationAction::CheckLegacyExists => 6,
        MigrationAction::CheckTargetExists => 5,
        MigrationAction::CheckTargetIsDir => 4,
        MigrationAction::CheckTargetHasEntry => 3,
        MigrationAction::RemoveEmptyTarget => 2,
        MigrationAction::MoveLegacy { .. } => 1,
        MigrationAction::Finish(_) => 0,
    }
}

/// A branded directory that holds something, or that is not a directory, is
/// never modified: the step that learns so ends the migration, skipped; the
/// empty branded directory is removed only right after it was found empty;
/// and the legacy directory is moved only onto an absent branded directory or
/// onto one just removed.
pub proof fn law_nonempty_target_is_never_touched(done: MigrationAction, answer: bool)
    ensures
        done == MigrationAction::CheckTargetIsDir && !answer ==> step_after(done, answer)
            == MigrationAction::Finish(DataDirMigrationOutcome::SkippedTargetNotEmpty),
        done == MigrationAction::CheckTargetHasEntry && answer ==> step_after(done, answer)
            == MigrationAction::Finish(DataDirMigrationOutcome::SkippedTargetNotEmpty),
        step_after(done, answer) == MigrationAction::RemoveEmptyTarget ==> done
            == MigrationAction::CheckTargetHasEntry && !answer,
        step_after(done, answer) matches MigrationAction::MoveLegacy { replaced_empty_target } ==> (
        (done == MigrationAction::CheckTargetExists && !answer && !replaced_empty_target) || (done
            == MigrationAction::RemoveEmptyTarget && replaced_empty_target)),
{
}

/// The outcome names what happened: `Migrated` only after a move onto an
/// absent branded directory, `MigratedReplacingEmptyTarget` only after a move
/// onto a removed empty one, and `LegacyDirectoryMissing` only when the legacy
/// directory was found absent.
pub proof fn law_outcome_reports_what_was_done(done: MigrationAction, answer: bool)
    requires
        !(done is Finish),
    ensures
        step_after(done, answer) == MigrationAction::Finish(DataDirMigrationOutcome::Migrated)
            ==> done == (MigrationAction::MoveLegacy { replaced_empty_target: false }),
        step_after(done, answer) == MigrationAction::Finish(
            DataDirMigrationOutcome::MigratedReplacingEmptyTarget,
        ) ==> done == (MigrationAction::MoveLegacy { replaced_empty_target: true }),
        step_after(done, answer) == MigrationAction::Finish(
            DataDirMigrationOutcome::LegacyDirectoryMissing,
        ) ==> done == MigrationAction::CheckLegacyExists && !answer,
        step_after(done, answer) == MigrationAction::Finish(DataDirMigrationOutcome::NotApplicable)
            ==> false,
{
}

/// Every step brings the migration closer to its end, so whatever the file
/// system answers it finishes after at most six answers.
pub proof fn law_migration_finishes(applicable: bool, answers: Seq<bool>)
    requires
        answers.len() >= 6,
    ensures
        migration_run(first_step(applicable), answers).last() is Finish,
        migration_run(first_step(applicable), answers).len() <= 7,
{
    lemma_run_finishes(first_step(applicable), answers);
}

proof fn lemma_run_finishes(action: MigrationAction, answers: Seq<bool>)
    requires
        answers.len() >= steps_left(action),
    ensures
        migration_run(action, answers).last() is Finish,
        migration_run(action, answers).len() <= steps_left(action) + 1,
    decreases answers.len(),
{
    if action is Finish {
    } else {
        let next = step_after(action, answers[0]);
        assert(steps_left(next) < steps_left(action));
        lemma_run_finishes(next, answers.subrange(1, answers.len() as int));
    }
}

} // verus!
