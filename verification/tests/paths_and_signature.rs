use prooflane::codex::{resolve_codex_home_dir_from, CodexParser};
use prooflane::paths::{
    branded_desktop_data_dir, choose_root_base, first_migration_action, next_migration_action, simplify_verbatim_path,
    DataDirMigrationOutcome, MigrationAction, RootBase,
};
use prooflane::signature::{
    embedded_public_key, parse_public_key, unwrap_base64, verify_minisign, verify_release_signature,
};

#[test]
fn simplifies_a_verbatim_drive_path() {
    assert_eq!(
        simplify_verbatim_path(r"\\?\C:\Users\song\.codeg\uploads\b\img.png"),
        String::from(r"C:\Users\song\.codeg\uploads\b\img.png")
    );
}

#[test]
fn simplifies_a_verbatim_unc_path_in_either_casing() {
    assert_eq!(
        simplify_verbatim_path(r"\\?\UNC\srv\share\img.png"),
        String::from(r"\\srv\share\img.png")
    );
    assert_eq!(
        simplify_verbatim_path(r"\\?\unc\srv\share\img.png"),
        String::from(r"\\srv\share\img.png")
    );
}

#[test]
fn leaves_every_other_shape_untouched() {
    for path in [
        "/home/u/.codeg/uploads/b/img.png",
        "/data/uploads/b/img.png",
        r"C:\Users\song\img.png",
        r"\\srv\share\img.png",
        r"\\?\Volume{7b2f1c40-0000-0000-0000-100000000000}\img.png",
        "relative/path.png",
    ] {
        assert_eq!(
            simplify_verbatim_path(path),
            String::from(path),
            "rewrote a path that has no verbatim prefix: {path}"
        );
    }
}

#[test]
fn a_verbatim_prefix_without_a_drive_letter_stays() {
    assert_eq!(simplify_verbatim_path(r"\\?\1:\x"), String::from(r"\\?\1:\x"));
    assert_eq!(simplify_verbatim_path(r"\\?\C"), String::from(r"\\?\C"));
}

#[test]
fn codex_home_env_overrides_default_home() {
    let resolved = resolve_codex_home_dir_from(
        Some("/tmp/custom-codex-home".to_string()),
        Some("/Users/default".to_string()),
    );
    assert_eq!(resolved, "/tmp/custom-codex-home");
}

#[test]
fn codex_home_defaults_to_home_dot_codex() {
    let resolved = resolve_codex_home_dir_from(None, Some("/Users/default".to_string()));
    assert_eq!(resolved, "/Users/default/.codex");
}

#[test]
fn an_empty_codex_home_env_is_ignored() {
    let resolved = resolve_codex_home_dir_from(Some(String::new()), None);
    assert_eq!(resolved, ".codex");
    let parser = CodexParser::with_base_dir("/x/sessions".to_string());
    assert_eq!(parser.base_dir(), "/x/sessions");
    let parser = CodexParser::new(Some("/opt/codex".to_string()));
    assert_eq!(parser.base_dir(), "/opt/codex/sessions");
}

#[test]
fn codeg_roots_follow_their_resolution_order() {
    assert_eq!(
        choose_root_base(Some("/h".into()), Some("/d".into()), Some("/u".into())),
        RootBase::Override("/h".into())
    );
    assert_eq!(
        choose_root_base(Some(String::new()), Some("/d".into()), Some("/u".into())),
        RootBase::DataDir("/d".into())
    );
    assert_eq!(choose_root_base(None, None, Some("/u".into())), RootBase::Home("/u".into()));
    assert_eq!(choose_root_base(None, Some(String::new()), None), RootBase::Relative);
}

fn run(applicable: bool, answers: &[bool]) -> Vec<MigrationAction> {
    let mut steps = vec![first_migration_action(applicable)];
    for answer in answers {
        let last = *steps.last().unwrap();
        if matches!(last, MigrationAction::Finish(_)) {
            break;
        }
        steps.push(next_migration_action(last, *answer));
    }
    steps
}

#[test]
fn migration_moves_onto_an_absent_target() {
    let steps = run(true, &[true, false, true]);
    assert_eq!(
        steps,
        vec![
            MigrationAction::CheckLegacyExists,
            MigrationAction::CheckTargetExists,
            MigrationAction::MoveLegacy { replaced_empty_target: false },
            MigrationAction::Finish(DataDirMigrationOutcome::Migrated),
        ]
    );
}

#[test]
fn migration_replaces_an_empty_target_and_skips_a_full_one() {
    let replaced = run(true, &[true, true, true, false, true, true]);
    assert_eq!(
        replaced.last(),
        Some(&MigrationAction::Finish(DataDirMigrationOutcome::MigratedReplacingEmptyTarget))
    );
    assert!(replaced.contains(&MigrationAction::RemoveEmptyTarget));
    let skipped = run(true, &[true, true, true, true]);
    assert_eq!(
        skipped.last(),
        Some(&MigrationAction::Finish(DataDirMigrationOutcome::SkippedTargetNotEmpty))
    );
    assert!(!skipped.contains(&MigrationAction::RemoveEmptyTarget));
    let not_a_dir = run(true, &[true, true, false]);
    assert_eq!(
        not_a_dir.last(),
        Some(&MigrationAction::Finish(DataDirMigrationOutcome::SkippedTargetNotEmpty))
    );
}

#[test]
fn migration_is_inapplicable_or_finds_nothing() {
    assert_eq!(
        run(false, &[true]),
        vec![MigrationAction::Finish(DataDirMigrationOutcome::NotApplicable)]
    );
    assert_eq!(
        run(true, &[false]).last(),
        Some(&MigrationAction::Finish(DataDirMigrationOutcome::LegacyDirectoryMissing))
    );
}

#[test]
fn embedded_pubkey_parses() {
    embedded_public_key().expect("embedded pubkey should parse");
}

#[test]
fn bare_key_line_parses() {
    let text = "untrusted comment: minisign public key: 488C76C215D67A88\n\
                RWSIetYVwnaMSCgK8itX6mqf0qbuguyjngf6Ze9BeWuekSFi8+vvwzYn\n";
    parse_public_key(text).expect("two-line pub text should parse");
}

#[test]
fn key_text_without_a_key_line_is_rejected() {
    let err = parse_public_key("untrusted comment: nothing\n\n   \n").err().expect("error");
    assert_eq!(err, "minisign public key text has no key line");
    let err = parse_public_key("not-a-key").err().expect("error");
    assert!(err.starts_with("failed to parse minisign public key: "));
}

#[test]
fn garbage_signature_is_rejected() {
    let pk = embedded_public_key().unwrap();
    let err = verify_minisign(&pk, b"hello", "not a signature").unwrap_err();
    assert!(err.contains("parse") || err.contains("signature"));
}

#[test]
fn non_base64_sig_wrapper_is_rejected() {
    assert!(verify_release_signature(b"data", "%%% not base64 %%%").is_err());
}

#[test]
fn base64_wrappers_decode_to_their_text() {
    assert_eq!(unwrap_base64("  aGVsbG8=\n").unwrap(), "hello");
    assert!(unwrap_base64("%%%").unwrap_err().starts_with("base64 decode failed: "));
    assert!(unwrap_base64("/w==").unwrap_err().starts_with("invalid utf-8 in minisign text: "));
}

#[test]
fn a_home_that_ends_in_a_separator_gets_no_second_one() {
    let resolved = resolve_codex_home_dir_from(None, Some("/Users/default/".to_string()));
    assert_eq!(resolved, "/Users/default/.codex");
    let parser = CodexParser::new(Some("/opt/codex/".to_string()));
    assert_eq!(parser.base_dir(), "/opt/codex/sessions");
}

#[test]
fn maps_legacy_desktop_data_dir_to_branded_sibling() {
    let fallback = std::path::PathBuf::from("app-data").join("io.github.xuhengmao.prooflane");

    assert_eq!(
        branded_desktop_data_dir(fallback.to_str().expect("text path")),
        std::path::PathBuf::from("app-data").join("prooflane").to_str().expect("text path")
    );
}

#[test]
fn leaves_non_legacy_desktop_data_dir_unchanged() {
    let fallback = std::path::PathBuf::from("app-data").join("custom-prooflane-data");

    assert_eq!(branded_desktop_data_dir(fallback.to_str().expect("text path")), fallback.to_str().expect("text path"));
}
