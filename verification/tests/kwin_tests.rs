use fanzyzones_kde::kwin::{
    attempt_failure, contains_str, fallback_error, first_existing, invoke_failed_heading,
    invoke_shortcut_candidates, lists_script, one_shot_script_id, parse_busctl_i32,
    reconfigure_candidates, reconfigure_failed_heading, script_config_group, script_enabled_key,
    script_object_path, AttemptOutcome, CommandResult, KwinController, SCRIPT_ID,
};
use fanzyzones_kde::kwin::{
    builtin_tiling_keys, fallback_step, kpackage_install_args, kpackage_remove_args,
    kwinrc_write_args, load_script_args, run_script_args, unload_script_args, FallbackStep,
};
use std::path::PathBuf;

#[test]
fn controller_keeps_its_script_dir() {
    let controller = KwinController::new(PathBuf::from("/opt/kwin-script"));
    assert_eq!(controller.script_dir(), &PathBuf::from("/opt/kwin-script"));
}

#[test]
fn script_names_derive_from_the_script_id() {
    assert_eq!(SCRIPT_ID, "fanzyzones_kde");
    assert_eq!(script_config_group(), "Script-fanzyzones_kde");
    assert_eq!(script_enabled_key(), "fanzyzones_kdeEnabled");
    assert_eq!(one_shot_script_id("snap", 1_700_000_000_123), "fanzyzones_kde_snap_1700000000123");
    assert_eq!(script_object_path(4), "/Scripting/Script4");
    assert_eq!(script_object_path(-2), "/Scripting/Script-2");
}

#[test]
fn successful_commands_pass_and_failures_explain_themselves() {
    let ok = CommandResult { program: "busctl".into(), status: Some(0), stdout: "i 3\n".into(), stderr: String::new() };
    assert_eq!(ok.clone().ensure_success(), Ok(ok));
    let failed = CommandResult { program: "kpackagetool6".into(), status: Some(3), stdout: "out".into(), stderr: "err".into() };
    assert_eq!(
        failed.ensure_success(),
        Err("kpackagetool6 exited with Some(3)\nstdout:\nout\nstderr:\nerr".to_string())
    );
    let killed = CommandResult { program: "qdbus".into(), status: None, stdout: String::new(), stderr: String::new() };
    assert_eq!(killed.ensure_success(), Err("qdbus exited with None\nstdout:\n\nstderr:\n".to_string()));
}

#[test]
fn busctl_numbers_are_the_first_integer_word() {
    assert_eq!(parse_busctl_i32("i 7\n"), Ok(7));
    assert_eq!(parse_busctl_i32("  i\t-12 5"), Ok(-12));
    assert_eq!(parse_busctl_i32(" s \"x\" \n"), Err("parse busctl int from 's \"x\"'".to_string()));
    assert_eq!(parse_busctl_i32("i 99999999999"), Err("parse busctl int from 'i 99999999999'".to_string()));
}

#[test]
fn package_listing_is_searched_line_by_line() {
    assert!(lists_script("org.kde.a\nfanzyzones_kde\n"));
    assert!(!lists_script("fanzyzones\n_kde"));
    assert!(contains_str("abc", "bc"));
    assert!(!contains_str("abc", "abcd"));
}

#[test]
fn first_existing_candidate_wins() {
    assert_eq!(first_existing(&[false, true, true]), 1);
    assert_eq!(first_existing(&[false, false]), 0);
    assert_eq!(first_existing(&[]), 0);
}

#[test]
fn fallback_attempts_are_recorded_until_one_succeeds() {
    let ok = AttemptOutcome::Exited { status: Some(0), stdout: String::new(), stderr: String::new() };
    assert_eq!(attempt_failure("qdbus6", &ok), None);
    let failed = AttemptOutcome::Exited { status: Some(1), stdout: "a".into(), stderr: "b".into() };
    assert_eq!(attempt_failure("qdbus6", &failed), Some("qdbus6 exited Some(1): ab".to_string()));
    let missing = AttemptOutcome::Failed { error: "not found".into() };
    assert_eq!(attempt_failure("qdbus", &missing), Some("qdbus: not found".to_string()));
    let message = fallback_error(reconfigure_failed_heading(), &vec!["one".to_string(), "two".to_string()]);
    assert_eq!(message, "could not ask KWin to reconfigure; log out/in or restart KWin\none\ntwo");
    assert_eq!(invoke_failed_heading("X"), "could not invoke KWin shortcut 'X'");
}

#[test]
fn candidate_commands_are_listed_in_order() {
    let reconfigure = reconfigure_candidates();
    assert_eq!(reconfigure.len(), 4);
    assert_eq!(reconfigure[0].0, "qdbus6");
    assert_eq!(reconfigure[3].1, vec!["org.kde.KWin".to_string(), "/KWin".to_string(), "reconfigure".to_string()]);
    let invoke = invoke_shortcut_candidates("FanzyZones: Next layout");
    assert_eq!(invoke[0].0, "busctl");
    assert_eq!(invoke[0].1[7], "FanzyZones: Next layout");
    assert_eq!(invoke[2].0, "qdbus");
}

#[test]
fn fallback_chain_stops_at_the_first_success() {
    let failed = AttemptOutcome::Exited { status: Some(2), stdout: String::new(), stderr: "no".into() };
    let ok = AttemptOutcome::Exited { status: Some(0), stdout: String::new(), stderr: String::new() };
    let mut failures = Vec::new();
    assert_eq!(fallback_step(&mut failures, "qdbus6", &failed, 1, "heading"), FallbackStep::TryNext);
    assert_eq!(fallback_step(&mut failures, "qdbus", &ok, 0, "heading"), FallbackStep::Done);
    assert_eq!(failures, vec!["qdbus6 exited Some(2): no".to_string()]);
    let mut failures = Vec::new();
    assert_eq!(fallback_step(&mut failures, "a", &failed, 1, "h"), FallbackStep::TryNext);
    assert_eq!(
        fallback_step(&mut failures, "b", &AttemptOutcome::Failed { error: "gone".into() }, 0, "h"),
        FallbackStep::GiveUp { message: "h\na exited Some(2): no\nb: gone".to_string() }
    );
}

#[test]
fn kwin_command_lines_are_fixed() {
    assert_eq!(kpackage_remove_args(), vec!["--type", "KWin/Script", "--remove", "fanzyzones_kde"]);
    assert_eq!(kpackage_install_args("/x"), vec!["--type", "KWin/Script", "--install", "/x"]);
    assert_eq!(
        kwinrc_write_args("Plugins", "fanzyzones_kdeEnabled", "true"),
        vec!["--file", "kwinrc", "--group", "Plugins", "--key", "fanzyzones_kdeEnabled", "true"]
    );
    assert_eq!(builtin_tiling_keys(), vec!["ElectricBorderTiling", "ElectricBorderMaximize"]);
    assert_eq!(unload_script_args("k")[5], "unloadScript");
    assert_eq!(load_script_args("/p.qml", "id")[6..], ["ss", "/p.qml", "id"]);
    assert_eq!(run_script_args("/Scripting/Script3"), vec!["--user", "call", "org.kde.KWin", "/Scripting/Script3", "org.kde.kwin.Script", "run"]);
}
