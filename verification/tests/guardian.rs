use wsl_keeper::config::DiskRule;
use wsl_keeper::guardian::{after_probe, ProbeStep, begin_disk_pass, init_after_settle, session_stopped, wsl_pass, SessionEnd, WslPass};
use wsl_keeper::state::ResetFlags;
use wsl_keeper::config::{AppConfig, PauseState};
use wsl_keeper::guardian::{
    apply_inventory, disk_gate, ensure_can_start, guardian_should_run_at, hold_for_retry,
    mark_running, mark_stopped, normalized_init, prepare_attempt, record_mount_failure,
    record_mounted, record_start_failure, DiskGate, StartCheck,
};
use wsl_keeper::i18n::Locale;
use wsl_keeper::state::{DiskRuntime, RuntimeInner};
use wsl_keeper::wsl::DistroInfo;

#[test]
fn normalizes_init_command() {
    let mut cfg = AppConfig::default();
    assert_eq!(normalized_init(&cfg), None);
    cfg.init_command = Some("   ".into());
    assert_eq!(normalized_init(&cfg), None);
    cfg.init_command = Some("  sudo service docker start ".into());
    assert_eq!(
        normalized_init(&cfg).as_deref(),
        Some("sudo service docker start")
    );
}

#[test]
fn guardian_runs_only_when_enabled_configured_and_not_paused() {
    let mut cfg = AppConfig::default();
    cfg.distro = "Ubuntu".into();
    assert!(!guardian_should_run_at(&cfg, 1000));
    cfg.guardian_enabled = true;
    assert!(guardian_should_run_at(&cfg, 1000));
    cfg.pause_state = Some(PauseState { until: 2000 });
    assert!(!guardian_should_run_at(&cfg, 1000));
    assert!(guardian_should_run_at(&cfg, 2000));
    cfg.distro = "   ".into();
    assert!(!guardian_should_run_at(&cfg, 5000));
}

#[test]
fn mount_failures_back_off_then_open_the_circuit() {
    let mut d = DiskRuntime::default();
    prepare_attempt(&mut d);
    assert_eq!(d.interval, 60);
    assert!(!record_mount_failure(&mut d, "e1".into(), 1_000, 5));
    assert_eq!(d.failures, 1);
    assert_eq!(d.interval, 60);
    assert_eq!(d.next_retry, Some(60_000_001_000));
    assert!(hold_for_retry(&mut d, 60_000_000_999));
    assert!(!d.mounted);
    assert!(!hold_for_retry(&mut d, 60_000_001_000));
    assert!(!record_mount_failure(&mut d, "e2".into(), 60_000_001_000, 6));
    assert_eq!(d.interval, 120);
    let mut expected = 120;
    for n in 3..10 {
        assert!(!record_mount_failure(&mut d, "e".into(), 0, 7));
        expected = (expected * 2).min(600);
        assert_eq!(d.failures, n);
        assert_eq!(d.interval, expected);
    }
    assert!(record_mount_failure(&mut d, "last".into(), 0, 42));
    assert!(d.circuit_open);
    assert_eq!(d.circuit_opened_at, Some(42));
    assert_eq!(d.last_error.as_deref(), Some("last"));
    assert_eq!(disk_gate(&mut d, 1_000), DiskGate::Hold);
    assert_eq!(disk_gate(&mut d, 41), DiskGate::Hold);
    assert_eq!(disk_gate(&mut d, 42 + 1_800_000_000_000 - 1), DiskGate::Hold);
    assert_eq!(disk_gate(&mut d, 42 + 1_800_000_000_000), DiskGate::Proceed);
    assert_eq!(d.failures, 0);
    assert!(!d.circuit_open);
    let mut no_time = DiskRuntime { circuit_open: true, ..DiskRuntime::default() };
    assert_eq!(disk_gate(&mut no_time, 10), DiskGate::Skip);
}

#[test]
fn success_resets_the_record() {
    let mut d = DiskRuntime::default();
    record_mount_failure(&mut d, "e".into(), 0, 0);
    record_mounted(&mut d, Some("/dev/sdd1".into()));
    assert!(d.mounted);
    assert_eq!(d.failures, 0);
    assert_eq!(d.interval, 300);
    assert_eq!(d.device.as_deref(), Some("/dev/sdd1"));
    record_mounted(&mut d, None);
    assert_eq!(d.device.as_deref(), Some("/dev/sdd1"));
    record_mount_failure(&mut d, "again".into(), 0, 0);
    assert_eq!(d.interval, 60);
}

fn distros() -> Vec<DistroInfo> {
    vec![DistroInfo { name: "Ubuntu".into(), state: "Stopped".into(), version: 2, is_default: true }]
}

#[test]
fn start_checks() {
    let mut rt = RuntimeInner::default();
    assert_eq!(ensure_can_start(&mut rt, false, 0, &distros(), "ubuntu", Locale::En), StartCheck::Refused);
    assert_eq!(
        rt.last_error.as_deref(),
        Some("wsl.exe was not found. Install Windows Subsystem for Linux.")
    );
    rt.wsl_available = true;
    assert_eq!(ensure_can_start(&mut rt, false, 0, &distros(), "Arch", Locale::En), StartCheck::Refused);
    assert_eq!(
        rt.last_error.as_deref(),
        Some("Distro 'Arch' was not found. Pick an installed distro in Settings.")
    );
    assert_eq!(ensure_can_start(&mut rt, false, 0, &distros(), "UBUNTU", Locale::En), StartCheck::Ready);
    for _ in 0..9 {
        assert!(!record_start_failure(&mut rt, "x".into(), 100));
    }
    assert!(record_start_failure(&mut rt, "x".into(), 100));
    assert!(rt.wsl_circuit_open);
    assert_eq!(ensure_can_start(&mut rt, false, 200, &distros(), "Ubuntu", Locale::En), StartCheck::CircuitOpen);
    assert_eq!(ensure_can_start(&mut rt, false, 100 + 1_800_000_000_000, &distros(), "Ubuntu", Locale::En), StartCheck::Ready);
    assert_eq!(rt.wsl_failures, 0);
    for _ in 0..10 {
        record_start_failure(&mut rt, "x".into(), 100);
    }
    assert_eq!(ensure_can_start(&mut rt, true, 200, &distros(), "Ubuntu", Locale::En), StartCheck::Ready);
    assert!(rt.last_error.is_none());
}

#[test]
fn running_and_stopping_update_disks() {
    let mut rt = RuntimeInner::default();
    rt.set_disk(
        "a",
        DiskRuntime { mounted: true, device: Some("/dev/sdd1".into()), last_error: Some("old".into()), next_retry: Some(5), ..DiskRuntime::default() },
    );
    rt.set_disk(
        "b",
        DiskRuntime { circuit_open: true, last_error: Some("kept".into()), ..DiskRuntime::default() },
    );
    mark_running(&mut rt, 10);
    assert!(rt.distro_running);
    assert_eq!(rt.running_since, Some(10));
    assert_eq!(rt.disk("a").unwrap().next_retry, None);
    mark_running(&mut rt, 20);
    assert_eq!(rt.running_since, Some(10));
    mark_stopped(&mut rt, 30);
    assert!(!rt.distro_running);
    assert_eq!(rt.running_since, None);
    let a = rt.disk("a").unwrap();
    assert!(!a.mounted);
    assert!(a.device.is_none());
    assert!(a.last_error.is_none());
    assert_eq!(rt.disk("b").unwrap().last_error.as_deref(), Some("kept"));
}

#[test]
fn inventory_sets_version_and_mount_support() {
    let mut rt = RuntimeInner::default();
    let list = vec![DistroInfo { name: "Old".into(), state: "Stopped".into(), version: 1, is_default: false }];
    apply_inventory(&mut rt, true, &list, "old", true, 99);
    assert!(rt.wsl_available);
    assert_eq!(rt.distro_version, Some(1));
    assert!(!rt.mount_supported);
    assert_eq!(rt.last_check, Some(99));
    apply_inventory(&mut rt, true, &distros(), "ubuntu", false, 100);
    assert!(rt.mount_supported);
    assert!(!rt.mount_task_exists);
    apply_inventory(&mut rt, false, &distros(), "none", false, 100);
    assert_eq!(rt.distro_version, None);
    assert!(!rt.mount_supported);
}

fn running_cfg() -> AppConfig {
    let mut cfg = AppConfig::default();
    cfg.distro = "Ubuntu".into();
    cfg.guardian_enabled = true;
    cfg
}

#[test]
fn wsl_pass_decisions() {
    let mut cfg = running_cfg();
    assert_eq!(wsl_pass(&cfg, 1000, None, &None), WslPass::Start);
    assert_eq!(wsl_pass(&cfg, 1000, Some("Debian"), &None), WslPass::Switch);
    assert_eq!(wsl_pass(&cfg, 1000, Some("Ubuntu"), &None), WslPass::Watch { forget_init: true });
    cfg.init_command = Some(" echo hi ".into());
    assert_eq!(wsl_pass(&cfg, 1000, Some("Ubuntu"), &None), WslPass::SettleThenRerun);
    let ran = Some("echo hi".to_string());
    assert_eq!(wsl_pass(&cfg, 1000, Some("Ubuntu"), &ran), WslPass::Watch { forget_init: false });
    cfg.pause_state = Some(PauseState { until: 5000 });
    assert_eq!(wsl_pass(&cfg, 1000, Some("Ubuntu"), &ran), WslPass::Idle);
}

#[test]
fn init_runs_after_settling_only_when_still_needed() {
    let mut cfg = running_cfg();
    cfg.init_command = Some("echo hi".into());
    assert_eq!(init_after_settle(&cfg, 1000, "Ubuntu", &None), Some("echo hi".to_string()));
    assert_eq!(init_after_settle(&cfg, 1000, "Ubuntu", &Some("echo hi".into())), None);
    assert_eq!(init_after_settle(&cfg, 1000, "Debian", &None), None);
    cfg.guardian_enabled = false;
    assert_eq!(init_after_settle(&cfg, 1000, "Ubuntu", &None), None);
}

#[test]
fn short_sessions_count_as_failed_starts() {
    let mut rt = RuntimeInner::default();
    rt.distro_running = true;
    rt.running_since = Some(5);
    let mut down = false;
    assert_eq!(
        session_stopped(&mut rt, &mut down, 5_000_000_000, 77),
        SessionEnd { notify_stopped: true, notified_down: true, failed_start: true }
    );
    assert!(down);
    assert!(!rt.distro_running);
    assert_eq!(rt.running_since, None);
    assert_eq!(rt.last_check, Some(77));
    assert_eq!(
        session_stopped(&mut rt, &mut down, 60_000_000_000, 78),
        SessionEnd { notify_stopped: false, notified_down: true, failed_start: false }
    );
}

#[test]
fn disk_pass_takes_resets_and_lists_enabled_rules() {
    let rule = |id: &str, enabled: bool| DiskRule {
        id: id.to_string(),
        disk_number: 1,
        friendly_name: String::new(),
        partition: 1,
        fs_type: "ext4".into(),
        mount_name: id.to_string(),
        enabled,
    };
    let mut cfg = running_cfg();
    cfg.disk_rules = vec![rule("a", true), rule("b", false), rule("c", true)];
    let mut resets = ResetFlags::new();
    resets.request_disk_reset("a".into());
    let mut rt = RuntimeInner::default();
    let mut failed = DiskRuntime::default();
    failed.failures = 3;
    rt.set_disk("a", failed);
    rt.distro_running = true;

    cfg.guardian_enabled = false;
    assert!(begin_disk_pass(&cfg, 1000, &mut resets, &mut rt).is_empty());
    assert_eq!(resets.disks, vec!["a".to_string()]);
    assert_eq!(rt.disk("a").unwrap().failures, 3);

    cfg.guardian_enabled = true;
    assert_eq!(begin_disk_pass(&cfg, 1000, &mut resets, &mut rt), vec![0, 2]);
    assert!(resets.disks.is_empty());
    assert_eq!(rt.disk("a").unwrap().failures, 0);

    rt.distro_running = false;
    assert!(begin_disk_pass(&cfg, 1000, &mut resets, &mut rt).is_empty());
}

#[test]
fn probe_steps() {
    let mut d = DiskRuntime::default();
    assert_eq!(after_probe(&mut d, true, Some("/dev/sdb1".into()), 0), ProbeStep::Mounted);
    assert!(d.mounted);
    assert_eq!(d.interval, 300);
    let mut pending = DiskRuntime { failures: 2, next_retry: Some(100), mounted: true, ..DiskRuntime::default() };
    assert_eq!(after_probe(&mut pending, false, None, 99), ProbeStep::Pending);
    assert!(!pending.mounted);
    let mut due = DiskRuntime::default();
    assert_eq!(after_probe(&mut due, false, None, 100), ProbeStep::Attempt);
    assert_eq!(due.interval, 60);
}
