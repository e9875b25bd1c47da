use wsl_keeper::log::normalize_level;
use wsl_keeper::mount::{create_task_script, elevation_command, ps_single_quote, quote_cmd, TASK_NAME};
use wsl_keeper::state::{DiskRuntime, ResetFlags, RuntimeInner};

#[test]
fn quoting() {
    assert_eq!(quote_cmd(r#"C:\a "b".ps1"#), r#""C:\a \"b\".ps1""#);
    assert_eq!(ps_single_quote("it's"), "'it''s'");
    assert_eq!(
        elevation_command(r"C:\x\create.ps1"),
        r#"Start-Process -FilePath powershell.exe -Verb RunAs -Wait -ArgumentList '-NoProfile -ExecutionPolicy Bypass -File "C:\x\create.ps1"'"#
    );
}

#[test]
fn task_script_names_task_and_helper() {
    let s = create_task_script(r"C:\Users\o'brien\mount-helper.ps1");
    assert!(s.contains("$taskName = 'WSLKeeperMountTask'"));
    assert!(s.contains(r"$helper = 'C:\Users\o''brien\mount-helper.ps1'"));
    assert!(s.starts_with("$ErrorActionPreference = 'Stop'"));
    assert_eq!(TASK_NAME, "WSLKeeperMountTask");
}

#[test]
fn log_levels() {
    assert_eq!(normalize_level("debug"), "debug");
    assert_eq!(normalize_level("Warn"), "warn");
    assert_eq!(normalize_level("TRACE"), "trace");
    assert_eq!(normalize_level("error"), "error");
    assert_eq!(normalize_level("info"), "info");
    assert_eq!(normalize_level("loud"), "info");
}

#[test]
fn reset_requests_are_taken_once() {
    let mut f = ResetFlags::new();
    f.request_disk_reset("a".into());
    f.request_disk_reset("a".into());
    f.request_disk_reset("b".into());
    f.request_wsl_reset();
    assert_eq!(f.take_disks(), vec!["a".to_string(), "b".to_string()]);
    assert!(f.take_disks().is_empty());
    assert!(f.take_wsl());
    assert!(!f.take_wsl());
}

#[test]
fn runtime_disk_records() {
    let mut rt = RuntimeInner::default();
    assert!(rt.disk("x").is_none());
    rt.set_disk("x", DiskRuntime { failures: 1, ..DiskRuntime::default() });
    rt.set_disk("y", DiskRuntime::default());
    rt.set_disk("x", DiskRuntime { failures: 2, ..DiskRuntime::default() });
    assert_eq!(rt.disk("x").unwrap().failures, 2);
    assert_eq!(rt.disks.len(), 2);
}
