use wsl_keeper::config::{
    default_locale, default_log_level, default_schema_version, default_theme, AppConfig,
    ConfigError, DiskRule, PauseState,
};
use wsl_keeper::i18n::Locale;

fn rule(id: &str, partition: u32, fs: &str, name: &str) -> DiskRule {
    DiskRule {
        id: id.to_string(),
        disk_number: 2,
        friendly_name: "Data".to_string(),
        partition,
        fs_type: fs.to_string(),
        mount_name: name.to_string(),
        enabled: true,
    }
}

#[test]
fn defaults() {
    let c = AppConfig::default();
    assert_eq!(c.schema_version, 1);
    assert_eq!(c.log_level, "INFO");
    assert_eq!(c.locale, "system");
    assert_eq!(c.theme, "system");
    assert!(!c.guardian_enabled);
    assert!(c.disk_rules.is_empty());
    assert_eq!(default_schema_version(), 1);
    assert_eq!(default_log_level(), "INFO");
    assert_eq!(default_locale(), "system");
    assert_eq!(default_theme(), "system");
}

#[test]
fn validate_normalizes_fields() {
    let mut c = AppConfig::default();
    c.schema_version = 7;
    c.distro = "  Ubuntu \n".into();
    c.locale = "zh-TW".into();
    c.theme = "neon".into();
    c.log_level = "debug".into();
    assert!(c.validate().is_ok());
    assert_eq!(c.schema_version, 1);
    assert_eq!(c.distro, "Ubuntu");
    assert_eq!(c.locale, "zh");
    assert_eq!(c.theme, "system");
    assert_eq!(c.log_level, "DEBUG");
    c.locale = "en-GB".into();
    c.log_level = "verbose".into();
    c.validate().unwrap();
    assert_eq!(c.locale, "en");
    assert_eq!(c.log_level, "INFO");
    c.locale = "fr".into();
    c.theme = "dark".into();
    c.validate().unwrap();
    assert_eq!(c.locale, "system");
    assert_eq!(c.theme, "dark");
}

#[test]
fn validate_fills_blank_ids() {
    let mut c = AppConfig::default();
    c.disk_rules = vec![rule("  ", 1, "ext4", "data"), rule("keep", 2, "xfs", "other")];
    c.validate().unwrap();
    let id = &c.disk_rules[0].id;
    assert_eq!(id.len(), 36);
    assert_eq!(id.matches('-').count(), 4);
    assert_eq!(c.disk_rules[1].id, "keep");
}

#[test]
fn validate_refuses_bad_rules_in_order() {
    let mut c = AppConfig::default();
    c.log_level = "warn".into();
    c.disk_rules = vec![rule("a", 1, "ext4", "data"), rule("", 0, "ext4", "x"), rule("", 1, "ntfs", "y")];
    match c.validate() {
        Err(ConfigError::PartitionMin) => {}
        other => panic!("unexpected {:?}", other),
    }
    assert_eq!(c.log_level, "warn");
    assert_eq!(c.disk_rules[1].id.len(), 36);
    assert_eq!(c.disk_rules[2].id, "");

    let mut c = AppConfig::default();
    c.disk_rules = vec![rule("a", 1, "ntfs", "data")];
    match c.validate() {
        Err(e) => {
            assert!(matches!(&e, ConfigError::UnsupportedFs(fs) if fs == "ntfs"));
            assert_eq!(e.message(Locale::En), "Unsupported filesystem type: ntfs");
            assert_eq!(e.message(Locale::Zh), "不支持的文件系统类型：ntfs");
        }
        Ok(()) => panic!("ntfs is not supported"),
    }

    let mut c = AppConfig::default();
    c.disk_rules = vec![rule("a", 1, "btrfs", "-bad")];
    match c.validate() {
        Err(e) => assert_eq!(
            e.message(Locale::En),
            "Mount name '-bad' must be 1-32 chars of letters, digits, _ or -"
        ),
        Ok(()) => panic!("name must start with a letter or digit"),
    }

    let mut c = AppConfig::default();
    c.disk_rules = vec![rule("a", 1, "ext4", "data"), rule("b", 2, "ext4", "data")];
    match c.validate() {
        Err(e) => {
            assert!(matches!(&e, ConfigError::DuplicateMount(n) if n == "data"));
            assert_eq!(e.message(Locale::En), "Duplicate mount name 'data'");
        }
        Ok(()) => panic!("duplicate names are refused"),
    }

    let mut c = AppConfig::default();
    c.disk_rules = vec![rule("a", 1, "ext4", &"x".repeat(33))];
    assert!(c.validate().is_err());
    let mut c = AppConfig::default();
    c.disk_rules = vec![rule("a", 1, "ext4", &"x".repeat(32)), rule("b", 1, "ext4", "A_b-9")];
    assert!(c.validate().is_ok());
}

#[test]
fn validate_twice_changes_nothing() {
    let mut c = AppConfig::default();
    c.distro = " Debian ".into();
    c.locale = "zh-CN".into();
    c.log_level = "Trace".into();
    c.disk_rules = vec![rule("", 1, "ext4", "data")];
    c.validate().unwrap();
    let first = c.clone();
    c.validate().unwrap();
    assert_eq!(c.distro, first.distro);
    assert_eq!(c.locale, first.locale);
    assert_eq!(c.log_level, first.log_level);
    assert_eq!(c.disk_rules[0].id, first.disk_rules[0].id);
}

#[test]
fn pause_and_resume() {
    let mut c = AppConfig::default();
    c.pause_at(1_000, Some(15));
    assert_eq!(c.pause_state.unwrap().until, 1_000 + 15 * 60_000_000_000);
    c.pause_at(1_000, None);
    assert_eq!(c.pause_state.unwrap().until, 1_000 + 36_500 * 86_400_000_000_000);
    let p = PauseState { until: 5_000 };
    assert!(p.is_active_at(4_999));
    assert!(!p.is_active_at(5_000));
    assert!(!PauseState { until: 0 }.is_active());
    c.clear_expired_pause_at(1_000);
    assert!(c.pause_state.is_some());
    c.pause_state = Some(PauseState { until: 10 });
    c.clear_expired_pause_at(10);
    assert!(c.pause_state.is_none());
    c.pause_state = Some(PauseState { until: 10 });
    c.resume();
    assert!(c.pause_state.is_none());
    assert!(c.guardian_enabled);
}

#[test]
fn save_effects_follow_the_change() {
    let prev = AppConfig::default();
    let mut next = AppConfig::default();
    let e = wsl_keeper::config::save_effects(&prev, &next);
    assert_eq!(e.autostart, None);
    assert!(!e.need_mount_task);
    next.autostart = true;
    next.disk_rules = vec![rule("a", 1, "ext4", "data")];
    let e = wsl_keeper::config::save_effects(&prev, &next);
    assert_eq!(e.autostart, Some(true));
    assert!(e.need_mount_task);
    next.disk_rules[0].enabled = false;
    assert!(!wsl_keeper::config::save_effects(&prev, &next).need_mount_task);
}

#[test]
fn blank_ids_become_version_four_uuids() {
    let mut c = AppConfig::default();
    c.disk_rules = vec![rule("", 1, "ext4", "data")];
    c.validate().unwrap();
    let id: Vec<char> = c.disk_rules[0].id.chars().collect();
    assert_eq!(id[14], '4');
    assert!(matches!(id[19], '8' | '9' | 'a' | 'b'));
}

#[test]
fn pauses_fit_within_the_representable_instants() {
    use_pause_fits();
}

fn use_pause_fits() {
    let max: i128 = 8_210_266_876_799_999_999_999;
    assert!(wsl_keeper::config::pause_fits(0, None));
    assert!(wsl_keeper::config::pause_fits(max - 60_000_000_000, Some(1)));
    assert!(!wsl_keeper::config::pause_fits(max - 59_999_999_999, Some(1)));
    assert!(!wsl_keeper::config::pause_fits(max, None));
    assert!(wsl_keeper::config::pause_fits(-1_000_000_000, Some(15)));
}
