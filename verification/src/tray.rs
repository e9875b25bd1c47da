//! The tray: menu actions, icons and the status line.
use vstd::prelude::*;
use crate::i18n::{fill, pair_views, t, t_spec, tf, Locale};
use crate::status::OverallKind;
use crate::text::{decimal, str_eq};

verus! {

/// What a tray menu item does.
#[derive(Clone, Copy, Debug, PartialEq, Eq, Structural)]
pub enum TrayAction {
    /// Show the main window.
    Open,
    /// Show the main window on the settings page.
    Settings,
    /// Pause the guardian for so many minutes, or until resumed.
    Pause(Option<u32>),
    /// Resume the guardian.
    Resume,
    /// Quit the application.
    Quit,
}

/// The action of the tray menu item with id `id`.
pub open spec fn tray_action_spec(id: Seq<char>) -> Option<TrayAction> {
    if id == "open"@ {
        Some(TrayAction::Open)
    } else if id == "settings"@ {
        Some(TrayAction::Settings)
    } else if id == "pause_15"@ {
        Some(TrayAction::Pause(Some(15)))
    } else if id == "pause_60"@ {
        Some(TrayAction::Pause(Some(60)))
    } else if id == "pause_240"@ {
        Some(TrayAction::Pause(Some(240)))
    } else if id == "pause_1440"@ {
        Some(TrayAction::Pause(Some(1440)))
    } else if id == "pause_manual"@ {
        Some(TrayAction::Pause(None))
    } else if id == "resume"@ {
        Some(TrayAction::Resume)
    } else if id == "quit"@ {
        Some(TrayAction::Quit)
    } else {
        None
    }
}

/// The tray's timed pause items are named after their durations: an item that pauses for
/// `m` minutes has the id `pause_` followed by the decimal digits of `m`, so distinct items
/// pause for distinct durations; and `pause_15`, `pause_60`, `pause_240` and `pause_1440`
/// pause for 15, 60, 240 and 1440 minutes.
pub proof fn lemma_pause_items_name_their_minutes(id: Seq<char>, m: u32)
    ensures
        tray_action_spec(id) == Some(TrayAction::Pause(Some(m))) ==> id == "pause_"@ + decimal(m as nat),
        m == 15 || m == 60 || m == 240 || m == 1440 ==> tray_action_spec("pause_"@ + decimal(m as nat))
            == Some(TrayAction::Pause(Some(m))),
{
    reveal_strlit("pause_");
    reveal_strlit("pause_15");
    reveal_strlit("pause_60");
    reveal_strlit("pause_240");
    reveal_strlit("pause_1440");
    reveal_strlit("open");
    reveal_strlit("settings");
    reveal_strlit("pause_manual");
    reveal_strlit("resume");
    reveal_strlit("quit");
    reveal_with_fuel(decimal, 5);
    assert("pause_"@ + decimal(15) =~= "pause_15"@);
    assert("pause_"@ + decimal(60) =~= "pause_60"@);
    assert("pause_"@ + decimal(240) =~= "pause_240"@);
    assert("pause_"@ + decimal(1440) =~= "pause_1440"@);
    assert("pause_15"@.len() != "open"@.len());
    assert("pause_15"@ != "open"@);
    assert("pause_15"@[0] != "settings"@[0]);
    assert("pause_15"@ != "settings"@);
    assert("pause_60"@.len() != "open"@.len());
    assert("pause_60"@ != "open"@);
    assert("pause_60"@[0] != "settings"@[0]);
    assert("pause_60"@ != "settings"@);
    assert("pause_60"@[6] != "pause_15"@[6]);
    assert("pause_60"@ != "pause_15"@);
    assert("pause_240"@.len() != "open"@.len());
    assert("pause_240"@ != "open"@);
    assert("pause_240"@.len() != "settings"@.len());
    assert("pause_240"@ != "settings"@);
    assert("pause_240"@.len() != "pause_15"@.len());
    assert("pause_240"@ != "pause_15"@);
    assert("pause_240"@.len() != "pause_60"@.len());
    assert("pause_240"@ != "pause_60"@);
    assert("pause_1440"@.len() != "open"@.len());
    assert("pause_1440"@ != "open"@);
    assert("pause_1440"@.len() != "settings"@.len());
    assert("pause_1440"@ != "settings"@);
    assert("pause_1440"@.len() != "pause_15"@.len());
    assert("pause_1440"@ != "pause_15"@);
    assert("pause_1440"@.len() != "pause_60"@.len());
    assert("pause_1440"@ != "pause_60"@);
    assert("pause_1440"@.len() != "pause_240"@.len());
    assert("pause_1440"@ != "pause_240"@);
}

/// The action of a tray menu item, by its id; other ids do nothing.
pub fn tray_action(id: &str) -> (r: Option<TrayAction>)
    ensures
        r == tray_action_spec(id@),
{
    if str_eq(id, "open") {
        Some(TrayAction::Open)
    } else if str_eq(id, "settings") {
        Some(TrayAction::Settings)
    } else if str_eq(id, "pause_15") {
        Some(TrayAction::Pause(Some(15)))
    } else if str_eq(id, "pause_60") {
        Some(TrayAction::Pause(Some(60)))
    } else if str_eq(id, "pause_240") {
        Some(TrayAction::Pause(Some(240)))
    } else if str_eq(id, "pause_1440") {
        Some(TrayAction::Pause(Some(1440)))
    } else if str_eq(id, "pause_manual") {
        Some(TrayAction::Pause(None))
    } else if str_eq(id, "resume") {
        Some(TrayAction::Resume)
    } else if str_eq(id, "quit") {
        Some(TrayAction::Quit)
    } else {
        None
    }
}

/// The tray icons.
#[derive(Clone, Copy, Debug, PartialEq, Eq, Structural)]
pub enum TrayIcon {
    Good,
    Paused,
    Warn,
    Idle,
    Alert,
}

/// The icon shown for an overall state.
pub open spec fn tray_icon_spec(kind: OverallKind) -> TrayIcon {
    match kind {
        OverallKind::Healthy => TrayIcon::Good,
        OverallKind::Paused => TrayIcon::Paused,
        OverallKind::Starting => TrayIcon::Warn,
        OverallKind::Stopped => TrayIcon::Idle,
        OverallKind::Circuit => TrayIcon::Alert,
        OverallKind::Error => TrayIcon::Alert,
    }
}

/// The icon shown for an overall state.
pub fn tray_icon(kind: OverallKind) -> (r: TrayIcon)
    ensures
        r == tray_icon_spec(kind),
{
    match kind {
        OverallKind::Healthy => TrayIcon::Good,
        OverallKind::Paused => TrayIcon::Paused,
        OverallKind::Starting => TrayIcon::Warn,
        OverallKind::Stopped => TrayIcon::Idle,
        OverallKind::Circuit => TrayIcon::Alert,
        OverallKind::Error => TrayIcon::Alert,
    }
}

/// The status line shown before the first status is known: "recovering".
pub fn tray_status_fallback(locale: Locale) -> (r: String)
    ensures
        r@ == fill(
            t_spec(locale, "tray.status"@),
            seq![("state"@, t_spec(locale, "overall.starting"@))],
        ),
{
    let pairs: [(&str, &str); 1] = [("state", t(locale, "overall.starting"))];
    let r = tf(locale, "tray.status", &pairs);
    assert(pair_views(pairs@) =~= seq![("state"@, t_spec(locale, "overall.starting"@))]);
    r
}

/// Whether the main window stays hidden at start: when started in the background, or, in a
/// release build, when the configuration asks to start minimised.
pub fn start_hidden(background: bool, debug_build: bool, start_minimized: bool) -> (r: bool)
    ensures
        r == (background || (!debug_build && start_minimized)),
{
    background || (!debug_build && start_minimized)
}

/// Where the configuration and the logs are kept.
#[derive(Clone, Debug)]
pub struct AppPaths {
    pub config: String,
    pub logs: String,
}

} // verus!
