use wsl_keeper::i18n::{current, en, resolve, set_preference, t, tf, zh, Locale};

#[test]
fn preferences_resolve_to_locales() {
    assert_eq!(resolve("en-US", Locale::Zh), Locale::En);
    assert_eq!(resolve("zh-Hant", Locale::En), Locale::Zh);
    assert_eq!(resolve("system", Locale::Zh), Locale::Zh);
    assert_eq!(resolve("fr", Locale::En), Locale::En);
    let mut slot = String::new();
    assert_eq!(current(&slot, Locale::Zh), Locale::Zh);
    set_preference(&mut slot, "en");
    assert_eq!(slot, "en");
    assert_eq!(current(&slot, Locale::Zh), Locale::En);
}

#[test]
fn texts_in_both_languages() {
    assert_eq!(t(Locale::En, "tray.quit"), "Quit");
    assert_eq!(t(Locale::Zh, "tray.quit"), "退出");
    assert_eq!(t(Locale::En, "no.such.key"), "no.such.key");
    assert_eq!(t(Locale::Zh, "no.such.key"), "no.such.key");
    assert_eq!(en("overall.ok"), Some("Guardian is running"));
    assert_eq!(zh("overall.ok"), Some("守护进程运行中"));
    assert_eq!(en("missing"), None);
}

#[test]
fn placeholders_are_filled() {
    assert_eq!(
        tf(Locale::En, "notify.wslStopped", &[("distro", "Ubuntu")]),
        "Ubuntu is not running. Starting it now."
    );
    assert_eq!(
        tf(Locale::En, "tray.tooltip.ok", &[("count", "2"), ("unused", "x")]),
        "WSL Keeper · running · 2 mounted"
    );
    assert_eq!(tf(Locale::En, "tray.quit", &[]), "Quit");
    assert_eq!(
        tf(Locale::Zh, "error.initCommandFailed", &[("error", "boom")]),
        "error.initCommandFailed"
    );
}

#[test]
fn both_locales_fill_the_same_placeholders() {
    for (key, name) in [
        ("tray.status", "state"),
        ("notify.wslStopped", "distro"),
        ("error.distroNotFound", "name"),
        ("tray.tooltip.pausedUntil", "time"),
    ] {
        for locale in [Locale::En, Locale::Zh] {
            let filled = wsl_keeper::i18n::tf(locale, key, &[(name, "VALUE")]);
            assert!(filled.contains("VALUE"));
            assert!(!filled.contains('{'));
        }
    }
}
