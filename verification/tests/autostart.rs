use xhub::autostart::{
    apply, ensure_registered, exe_path_from_command, is_hidden_launch, is_os_disabled,
    launch_command_line, probe, run_path_matches_current, str_eq_ignore_ascii_case,
    AutostartStep, RunKeyRepair, HIDDEN_ARG,
};

const EXE: &str = r"C:\Program Files\x-hub\x-hub.exe";

#[test]
fn launch_command_line_contains_hidden() {
    let cli = launch_command_line(EXE);
    assert!(cli.contains(HIDDEN_ARG));
    assert!(cli.starts_with('"'));
}

#[test]
fn launch_command_line_quotes_the_path() {
    assert_eq!(
        launch_command_line(EXE),
        "\"C:\\Program Files\\x-hub\\x-hub.exe\" --autostart-hidden"
    );
}

#[test]
fn registered_command_reads_back_as_the_same_exe() {
    let cli = launch_command_line(EXE);
    assert_eq!(exe_path_from_command(&cli).as_deref(), Some(EXE));
    assert!(run_path_matches_current(Some(&cli), EXE));
    assert_eq!(ensure_registered(Some(&cli), EXE), None);
}

#[test]
fn exe_path_from_command_forms() {
    assert_eq!(exe_path_from_command("  \"C:\\a b\\x.exe\"  --x").as_deref(), Some("C:\\a b\\x.exe"));
    assert_eq!(exe_path_from_command("C:\\x.exe --autostart-hidden").as_deref(), Some("C:\\x.exe"));
    assert_eq!(exe_path_from_command("\"C:\\unterminated"), None);
    assert_eq!(exe_path_from_command("   "), None);
    assert_eq!(exe_path_from_command("\" C:\\x.exe \" y").as_deref(), Some("C:\\x.exe"));
}

#[test]
fn path_comparison_ignores_ascii_case_only() {
    assert!(str_eq_ignore_ascii_case("C:\\X-HUB.EXE", "c:\\x-hub.exe"));
    assert!(!str_eq_ignore_ascii_case("C:\\x.exe", "C:\\y.exe"));
    assert!(!str_eq_ignore_ascii_case("Ä", "ä"));
    assert!(run_path_matches_current(Some("\"C:\\X-HUB.EXE\" --autostart-hidden"), "c:\\x-hub.exe"));
    assert!(!run_path_matches_current(Some("\"C:\\old\\x-hub.exe\""), "C:\\new\\x-hub.exe"));
    assert!(!run_path_matches_current(None, EXE));
    assert!(!run_path_matches_current(Some("\"\" --autostart-hidden"), ""));
}

#[test]
fn disabled_mark_is_first_byte_three() {
    assert!(is_os_disabled(Some(&vec![3, 0, 0, 0])));
    assert!(!is_os_disabled(Some(&vec![2, 0, 0, 0])));
    assert!(!is_os_disabled(Some(&vec![])));
    assert!(!is_os_disabled(None));
}

#[test]
fn probe_reports_registration_and_disable_mark() {
    let cli = launch_command_line(EXE);
    assert_eq!(probe(Some(&cli), EXE, Some(&vec![3u8])), (true, true));
    assert_eq!(probe(None, EXE, None), (false, false));
    assert_eq!(probe(Some("\"D:\\other.exe\""), EXE, Some(&vec![2u8])), (false, false));
}

#[test]
fn ensure_registered_repairs_missing_or_moved_entries() {
    assert_eq!(ensure_registered(None, EXE), Some(RunKeyRepair::Missing));
    assert_eq!(ensure_registered(Some("\"D:\\old\\x-hub.exe\" --autostart-hidden"), EXE), Some(RunKeyRepair::WrongPath));
}

#[test]
fn apply_clears_then_registers() {
    assert_eq!(
        apply(true),
        vec![
            AutostartStep::RemoveRunKey,
            AutostartStep::RemoveLegacyTask,
            AutostartStep::WriteRunKey,
            AutostartStep::ClearDisabledMark
        ]
    );
    assert_eq!(apply(false), vec![AutostartStep::RemoveRunKey, AutostartStep::RemoveLegacyTask]);
}

#[test]
fn hidden_launch_is_detected_from_arguments() {
    let args = vec!["x-hub.exe".to_string(), HIDDEN_ARG.to_string()];
    assert!(is_hidden_launch(&args));
    assert!(!is_hidden_launch(&vec!["x-hub.exe".to_string(), "--autostart".to_string()]));
    assert!(!is_hidden_launch(&vec![]));
}
