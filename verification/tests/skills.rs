use sha2::{Digest, Sha256};
use xhub::skills::{
    bundle_hash, bundle_size, front_matter_field, install_conflict, install_next, skill_info,
    target_status, target_status_from, InstallAction, MarkerInfo, SkillFile, ERR_FOREIGN_CONFLICT, ERR_INSTALLED_CONFLICT, MARKER_FILE,
    SKILL_DIR_NAME, SKILL_ID,
};

const SKILL_MD: &str = "---\nname: x-hub-extension\ndescription: \"Build x-hub extensions: manifest, bridge API, service backends.\"\n---\n\n# x-hub extension\n";

fn file(path: &str, text: &str) -> SkillFile {
    SkillFile { path: path.to_string(), bytes: text.as_bytes().to_vec() }
}

fn bundle() -> Vec<SkillFile> {
    vec![
        file("references/service.md", "# service\n"),
        file("SKILL.md", SKILL_MD),
        file("xhub.d.ts", "declare const xhub: unknown;\n"),
        file("references/pitfalls.md", "# pitfalls\n"),
    ]
}

fn expected_hash(files: &[SkillFile]) -> String {
    let mut sorted: Vec<&SkillFile> = files.iter().collect();
    sorted.sort_by(|a, b| a.path.cmp(&b.path));
    let mut h = Sha256::new();
    for f in sorted {
        h.update(f.path.as_bytes());
        h.update([0u8]);
        h.update(&f.bytes);
    }
    let full = format!("{:x}", h.finalize());
    full[..16].to_string()
}

#[test]
fn skill_info_reads_front_matter() {
    let files = bundle();
    let info = skill_info(&files, "1.2.3");
    assert_eq!(info.name, "x-hub-extension");
    assert!(!info.description.is_empty());
    assert_eq!(info.dir_name, SKILL_DIR_NAME);
    assert_eq!(info.file_count, files.len());
}

#[test]
fn bundle_contains_skill_md_and_hash_is_stable() {
    let files = bundle();
    assert!(files.iter().any(|f| f.path == "SKILL.md"));
    assert!(files.iter().any(|f| f.path == "xhub.d.ts"));
    assert_eq!(bundle_hash(&files).len(), 16);
    assert_eq!(bundle_hash(&files), bundle_hash(&files));
    assert!(bundle_size(&files) > 0);
}

#[test]
fn bundle_hash_is_sha256_of_sorted_entries() {
    let files = bundle();
    assert_eq!(bundle_hash(&files), expected_hash(&files));
    let mut reversed = bundle();
    reversed.reverse();
    assert_eq!(bundle_hash(&reversed), bundle_hash(&files));
    let mut changed = bundle();
    changed[0].bytes.push(b'!');
    assert_ne!(bundle_hash(&changed), bundle_hash(&files));
}

#[test]
fn skill_info_fields() {
    let files = bundle();
    let info = skill_info(&files, "1.2.3");
    assert_eq!(info.id, SKILL_ID);
    assert_eq!(info.description, "Build x-hub extensions: manifest, bridge API, service backends.");
    let total: usize = files.iter().map(|f| f.bytes.len()).sum();
    assert_eq!(info.size, total as u64);
    assert_eq!(info.hash, bundle_hash(&files));
    assert_eq!(info.app_version, "1.2.3");
}

#[test]
fn skill_info_without_front_matter_falls_back() {
    let files = vec![file("SKILL.md", "# no front matter\nname: other\n")];
    let info = skill_info(&files, "0.1.0");
    assert_eq!(info.name, SKILL_ID);
    assert_eq!(info.description, "");
    let none = vec![file("README.md", "---\nname: other\n---\n")];
    assert_eq!(skill_info(&none, "0.1.0").name, SKILL_ID);
}

#[test]
fn front_matter_values_are_trimmed_and_unquoted() {
    let md = "---\r\nname:   'quoted name'  \r\nempty: \"\"\ndescription: plain\n---\nname: after\n";
    assert_eq!(front_matter_field(md, "name").as_deref(), Some("quoted name"));
    assert_eq!(front_matter_field(md, "description").as_deref(), Some("plain"));
    assert_eq!(front_matter_field(md, "empty"), None);
    assert_eq!(front_matter_field(md, "missing"), None);
    assert_eq!(front_matter_field("", "name"), None);
    assert_eq!(front_matter_field("name: x\n---\n", "name"), None);
}

#[test]
fn target_status_from_marker() {
    let marker = r#"{"id":"x-hub-extension","hash":"abcd","appVersion":"1.0.0","installedAt":"2026-01-01T00:00:00Z"}"#;
    let st = target_status("Test", "/tmp/skills", "custom", true, true, Some(marker), "abcd");
    assert!(st.installed && st.up_to_date && !st.foreign);
    assert_eq!(st.installed_version.as_deref(), Some("1.0.0"));
    let st = target_status("Test", "/tmp/skills", "custom", true, true, Some(marker), "ffff");
    assert!(st.installed && !st.up_to_date && !st.foreign);
    let st = target_status("Test", "/tmp/skills", "custom", true, true, Some("not json"), "abcd");
    assert!(st.installed && !st.up_to_date && !st.foreign);
    assert_eq!(st.installed_version, None);
    let st = target_status("Test", "/tmp/skills", "custom", true, true, Some(r#"{"hash":7}"#), "abcd");
    assert!(!st.up_to_date);
    let st = target_status("Test", "/tmp/skills", "custom", true, false, None, "abcd");
    assert!(st.installed && st.foreign && !st.up_to_date);
    assert_eq!(st.installed_version, None);
    let st = target_status("Test", "/tmp/skills", "auto", false, false, None, "abcd");
    assert!(!st.installed && !st.foreign && !st.up_to_date);
    assert_eq!(st.label, "Test");
    assert_eq!(st.path, "/tmp/skills");
    assert_eq!(st.kind, "auto");
}

#[test]
fn install_over_an_existing_directory_needs_confirmation() {
    assert_eq!(install_conflict(true, true, false).as_deref(), Some(ERR_INSTALLED_CONFLICT));
    assert_eq!(install_conflict(true, false, false).as_deref(), Some(ERR_FOREIGN_CONFLICT));
    assert_eq!(install_conflict(true, true, true), None);
    assert_eq!(install_conflict(false, false, false), None);
    assert_eq!(MARKER_FILE, ".xhub-skill.json");
}

/// Runs the install steps with the given outcome of each step and the
/// directories that exist after it.
fn install_run(steps: &[(bool, bool, bool)]) -> Vec<InstallAction> {
    let mut out = Vec::new();
    let mut last = None;
    let (mut ok, mut target, mut backup) = (true, false, false);
    for i in 0..=steps.len() {
        let a = install_next(last, ok, target, backup);
        out.push(a);
        if a == InstallAction::Done || a == InstallAction::Fail || i == steps.len() {
            break;
        }
        (ok, target, backup) = steps[i];
        last = Some(a);
    }
    out
}

#[test]
fn fresh_install_swaps_the_temporary_copy_in() {
    let run = install_run(&[(true, false, false), (true, false, false), (true, true, false), (true, true, false)]);
    assert_eq!(run, vec![InstallAction::ClearTemp, InstallAction::WriteTemp, InstallAction::SwapIn, InstallAction::DropBackup, InstallAction::Done]);
}

#[test]
fn update_backs_up_the_installed_directory_first() {
    let run = install_run(&[
        (true, true, false),
        (true, true, false),
        (true, true, false),
        (true, false, true),
        (true, true, true),
        (true, true, false),
    ]);
    assert_eq!(run, vec![InstallAction::ClearTemp, InstallAction::WriteTemp, InstallAction::ClearBackup, InstallAction::BackupTarget, InstallAction::SwapIn, InstallAction::DropBackup, InstallAction::Done]);
}

#[test]
fn failed_swap_restores_the_backup() {
    let run = install_run(&[
        (true, true, false),
        (true, true, false),
        (true, true, false),
        (true, false, true),
        (false, false, true),
        (true, true, false),
        (true, true, false),
    ]);
    assert_eq!(run, vec![InstallAction::ClearTemp, InstallAction::WriteTemp, InstallAction::ClearBackup, InstallAction::BackupTarget, InstallAction::SwapIn, InstallAction::Restore, InstallAction::DropTemp, InstallAction::Fail]);
}

#[test]
fn failed_write_ends_before_any_swap() {
    let run = install_run(&[(true, true, false), (false, true, false)]);
    assert_eq!(run, vec![InstallAction::ClearTemp, InstallAction::WriteTemp, InstallAction::Fail]);
    let run = install_run(&[(true, true, false), (true, true, false), (true, true, false), (false, true, false)]);
    assert_eq!(run, vec![InstallAction::ClearTemp, InstallAction::WriteTemp, InstallAction::ClearBackup, InstallAction::BackupTarget, InstallAction::Fail]);
}

#[test]
fn status_from_a_parsed_marker() {
    let m = MarkerInfo { hash: Some("abcd".into()), app_version: Some("1.2.0".into()) };
    let st = target_status_from("Test", "/tmp/skills", "custom", true, true, Some(m), "abcd");
    assert!(st.installed && st.up_to_date && !st.foreign);
    assert_eq!(st.installed_version.as_deref(), Some("1.2.0"));
    let m = MarkerInfo { hash: None, app_version: None };
    let st = target_status_from("Test", "/tmp/skills", "custom", true, true, Some(m), "abcd");
    assert!(!st.up_to_date && st.installed_version.is_none());
    let st = target_status_from("Test", "/tmp/skills", "auto", true, false, None, "abcd");
    assert!(st.foreign && !st.up_to_date);
    assert_eq!(st.kind, "auto");
}
