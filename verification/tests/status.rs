use wsl_keeper::config::{AppConfig, DiskRule, PauseState};
use wsl_keeper::i18n::Locale;
use wsl_keeper::state::{DiskRuntime, RuntimeInner};
use wsl_keeper::status::{build_at, DiskStatus, KeeperStatus, OverallKind};
use wsl_keeper::tray::{start_hidden, tray_action, tray_icon, tray_status_fallback, TrayAction, TrayIcon};

fn rule(id: &str, enabled: bool) -> DiskRule {
    DiskRule {
        id: id.to_string(),
        disk_number: 1,
        friendly_name: "Disk".to_string(),
        partition: 1,
        fs_type: "ext4".to_string(),
        mount_name: id.to_string(),
        enabled,
    }
}

fn running_rt() -> RuntimeInner {
    let mut rt = RuntimeInner::default();
    rt.wsl_available = true;
    rt.distro_running = true;
    rt
}

#[test]
fn overall_states() {
    let mut cfg = AppConfig::default();
    cfg.guardian_enabled = true;
    cfg.disk_rules = vec![rule("a", true), rule("b", false)];
    let mut rt = running_rt();
    let s = build_at(&cfg, &rt, 100);
    assert_eq!(s.overall, OverallKind::Starting);
    assert_eq!(s.last_check, Some(100));
    assert_eq!(s.disks.len(), 2);
    rt.set_disk("a", DiskRuntime { mounted: true, ..DiskRuntime::default() });
    assert_eq!(build_at(&cfg, &rt, 100).overall, OverallKind::Healthy);
    rt.set_disk("b", DiskRuntime { circuit_open: true, ..DiskRuntime::default() });
    assert_eq!(build_at(&cfg, &rt, 100).overall, OverallKind::Healthy);
    rt.set_disk("a", DiskRuntime { circuit_open: true, ..DiskRuntime::default() });
    assert_eq!(build_at(&cfg, &rt, 100).overall, OverallKind::Circuit);
    rt.set_disk("a", DiskRuntime { mounted: true, ..DiskRuntime::default() });
    rt.distro_running = false;
    assert_eq!(build_at(&cfg, &rt, 100).overall, OverallKind::Stopped);
    rt.wsl_failures = 2;
    assert_eq!(build_at(&cfg, &rt, 100).overall, OverallKind::Starting);
    rt.wsl_available = false;
    assert_eq!(build_at(&cfg, &rt, 100).overall, OverallKind::Error);
    cfg.pause_state = Some(PauseState { until: 200 });
    let paused = build_at(&cfg, &rt, 100);
    assert_eq!(paused.overall, OverallKind::Paused);
    assert_eq!(paused.pause_until, Some(200));
    let later = build_at(&cfg, &rt, 300);
    assert_eq!(later.pause_until, None);
    cfg.guardian_enabled = false;
    assert_eq!(build_at(&cfg, &rt, 300).overall, OverallKind::Paused);
}

#[test]
fn disk_status_reflects_runtime() {
    let mut cfg = AppConfig::default();
    cfg.disk_rules = vec![rule("a", true)];
    let mut rt = running_rt();
    rt.last_check = Some(7);
    rt.set_disk(
        "a",
        DiskRuntime { failures: 3, device: Some("/dev/sdd1".into()), last_error: Some("e".into()), ..DiskRuntime::default() },
    );
    let s = build_at(&cfg, &rt, 100);
    assert_eq!(s.last_check, Some(7));
    let d: &DiskStatus = &s.disks[0];
    assert_eq!(d.rule_id, "a");
    assert_eq!(d.failures, 3);
    assert_eq!(d.device.as_deref(), Some("/dev/sdd1"));
    assert_eq!(d.last_error.as_deref(), Some("e"));
}

fn status(overall: OverallKind) -> KeeperStatus {
    KeeperStatus {
        overall,
        distro: "Ubuntu".into(),
        distro_running: true,
        distro_version: Some(2),
        wsl_available: true,
        mount_supported: true,
        paused: false,
        pause_until: None,
        running_since: None,
        last_check: None,
        last_error: None,
        wsl_failures: 0,
        wsl_circuit_open: false,
        mount_task_exists: true,
        disks: vec![],
    }
}

#[test]
fn tooltips_and_labels() {
    let mut s = status(OverallKind::Healthy);
    assert_eq!(s.tooltip(Locale::En), "WSL Keeper · running · 0 mounted");
    s.overall = OverallKind::Paused;
    assert_eq!(s.tooltip(Locale::En), "WSL Keeper · paused");
    assert_eq!(
        s.tooltip_with_clock(Locale::En, Some("09:30".into())),
        "WSL Keeper · paused"
    );
    s.pause_until = Some(0);
    assert_eq!(
        s.tooltip_with_clock(Locale::En, Some("09:30".into())),
        "WSL Keeper · paused until 09:30"
    );
    let shown = s.tooltip(Locale::En);
    assert!(shown.starts_with("WSL Keeper · paused until "));
    assert_eq!(shown.chars().count(), "WSL Keeper · paused until ".chars().count() + 5);
    s.overall = OverallKind::Error;
    assert_eq!(s.tooltip(Locale::Zh), "WSL Keeper · 出错（点击查看）");
    assert_eq!(s.tray_label(Locale::En), "Status: Something needs attention");
    assert_eq!(status(OverallKind::Healthy).tray_label(Locale::Zh), "状态：守护进程运行中");
}

#[test]
fn recompute_overall_counts_enabled_disks_only() {
    let mut s = status(OverallKind::Stopped);
    s.disks = vec![DiskStatus {
        rule_id: "a".into(),
        name: "Disk".into(),
        disk_number: 1,
        partition: 1,
        fs_type: "ext4".into(),
        mount_name: "a".into(),
        enabled: false,
        mounted: false,
        device: None,
        last_error: None,
        failures: 0,
        circuit_open: true,
        next_retry: None,
    }];
    s.recompute_overall();
    assert_eq!(s.overall, OverallKind::Healthy);
    s.disks[0].enabled = true;
    s.recompute_overall();
    assert_eq!(s.overall, OverallKind::Circuit);
}

#[test]
fn tray_helpers() {
    assert_eq!(tray_action("pause_60"), Some(TrayAction::Pause(Some(60))));
    assert_eq!(tray_action("pause_manual"), Some(TrayAction::Pause(None)));
    assert_eq!(tray_action("quit"), Some(TrayAction::Quit));
    assert_eq!(tray_action("status"), None);
    assert_eq!(tray_icon(OverallKind::Error), TrayIcon::Alert);
    assert_eq!(tray_icon(OverallKind::Starting), TrayIcon::Warn);
    assert_eq!(tray_status_fallback(Locale::En), "Status: Recovering");
    assert!(start_hidden(true, true, false));
    assert!(!start_hidden(false, true, true));
    assert!(start_hidden(false, false, true));
}

#[test]
fn paused_tooltip_shows_the_end_time() {
    let mut s = status(OverallKind::Paused);
    s.pause_until = Some(1_700_000_000_123_456_789);
    let shown = s.tooltip(Locale::En);
    let time: String = shown.chars().skip("WSL Keeper · paused until ".chars().count()).collect();
    assert!(shown.starts_with("WSL Keeper · paused until "));
    let t: Vec<char> = time.chars().collect();
    assert_eq!(t.len(), 5);
    assert_eq!(t[2], ':');
    assert!(t.iter().enumerate().all(|(i, c)| i == 2 || c.is_ascii_digit()));
}

#[test]
fn paused_tooltip_shows_times_before_the_epoch() {
    let mut s = status(OverallKind::Paused);
    s.pause_until = Some(-31_536_000_000_000_001);
    let shown = s.tooltip(Locale::En);
    assert!(shown.starts_with("WSL Keeper · paused until "));
    assert_eq!(shown.chars().count(), "WSL Keeper · paused until ".chars().count() + 5);
}

#[test]
fn splits_instants_into_seconds_and_nanoseconds() {
    use_split();
}

fn use_split() {
    assert_eq!(wsl_keeper::status::split_nanos(1_500_000_000), (1, 500_000_000));
    assert_eq!(wsl_keeper::status::split_nanos(-1), (-1, 999_999_999));
    assert_eq!(wsl_keeper::status::split_nanos(-2_000_000_000), (-2, 0));
}
