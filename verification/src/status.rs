//! The status summary shown in the window and the tray.
use vstd::prelude::*;
use crate::bindings::{clock_text_shape, in_utc_range, local_clock_text, now_nanos, MAX_UTC_NANOS, MIN_UTC_NANOS};
use crate::config::{pause_end, pause_fits_spec, AppConfig, DiskRule, PauseState};
use crate::i18n::{fill, pair_views, t, t_spec, tf, Locale};
use crate::state::{lookup, DiskRuntime, RuntimeInner};
use crate::text::{chars_of, decimal, push_decimal, string_of};

verus! {

/// The overall state of the guardian.
#[derive(Clone, Copy, Debug, PartialEq, Eq, Structural)]
pub enum OverallKind {
    Healthy,
    Starting,
    Paused,
    Circuit,
    Stopped,
    Error,
}

/// The status of one disk rule.
#[derive(Clone, Debug)]
pub struct DiskStatus {
    pub rule_id: String,
    pub name: String,
    pub disk_number: u32,
    pub partition: u32,
    pub fs_type: String,
    pub mount_name: String,
    pub enabled: bool,
    pub mounted: bool,
    pub device: Option<String>,
    pub last_error: Option<String>,
    pub failures: u32,
    pub circuit_open: bool,
    /// When the next mount attempt is due, in nanoseconds since the Unix epoch.
    pub next_retry: Option<i128>,
}

/// Everything the interface shows about the guardian.
#[derive(Clone, Debug)]
pub struct KeeperStatus {
    pub overall: OverallKind,
    pub distro: String,
    pub distro_running: bool,
    pub distro_version: Option<u32>,
    pub wsl_available: bool,
    pub mount_supported: bool,
    pub paused: bool,
    /// When the pause ends, in nanoseconds since the Unix epoch.
    pub pause_until: Option<i128>,
    pub running_since: Option<i128>,
    pub last_check: Option<i128>,
    pub last_error: Option<String>,
    pub wsl_failures: u32,
    pub wsl_circuit_open: bool,
    pub mount_task_exists: bool,
    pub disks: Vec<DiskStatus>,
}

/// Whether some enabled disk has its circuit breaker open.
pub open spec fn any_enabled_circuit(disks: Seq<DiskStatus>) -> bool {
    exists|i: int| 0 <= i < disks.len() && #[trigger] disks[i].enabled && disks[i].circuit_open
}

/// Whether some enabled disk is not mounted.
pub open spec fn any_enabled_unmounted(disks: Seq<DiskStatus>) -> bool {
    exists|i: int| 0 <= i < disks.len() && #[trigger] disks[i].enabled && !disks[i].mounted
}

/// The overall state: paused first, then a missing WSL, then an open circuit breaker; with
/// the distro running it is `Starting` while an enabled disk is unmounted and `Ok` after;
/// with the distro down it is `Starting` after failed starts and `Stopped` before any.
pub open spec fn overall_for(s: KeeperStatus) -> OverallKind {
    if s.paused {
        OverallKind::Paused
    } else if !s.wsl_available {
        OverallKind::Error
    } else if s.wsl_circuit_open || any_enabled_circuit(s.disks@) {
        OverallKind::Circuit
    } else if s.distro_running {
        if any_enabled_unmounted(s.disks@) {
            OverallKind::Starting
        } else {
            OverallKind::Healthy
        }
    } else if s.wsl_failures > 0 {
        OverallKind::Starting
    } else {
        OverallKind::Stopped
    }
}

/// The number of mounted disks among `disks`.
pub open spec fn count_mounted(disks: Seq<DiskStatus>) -> nat
    decreases disks.len(),
{
    if disks.len() == 0 {
        0
    } else {
        count_mounted(disks.drop_last()) + if disks.last().mounted {
            1nat
        } else {
            0nat
        }
    }
}

/// The key of the text that names an overall state.
pub open spec fn overall_key(k: OverallKind) -> Seq<char> {
    match k {
        OverallKind::Healthy => "overall.ok"@,
        OverallKind::Starting => "overall.starting"@,
        OverallKind::Paused => "overall.paused"@,
        OverallKind::Circuit => "overall.circuit"@,
        OverallKind::Stopped => "overall.stopped"@,
        OverallKind::Error => "overall.error"@,
    }
}

/// The tray tooltip for `s`, where `clock` is how the pause's end reads on the local clock.
pub open spec fn tooltip_spec(s: KeeperStatus, locale: Locale, clock: Option<Seq<char>>) -> Seq<char> {
    match s.overall {
        OverallKind::Healthy => fill(
            t_spec(locale, "tray.tooltip.ok"@),
            seq![("count"@, decimal(count_mounted(s.disks@)))],
        ),
        OverallKind::Starting => t_spec(locale, "tray.tooltip.starting"@),
        OverallKind::Paused => match (s.pause_until, clock) {
            (Some(_), Some(c)) => fill(t_spec(locale, "tray.tooltip.pausedUntil"@), seq![("time"@, c)]),
            _ => t_spec(locale, "tray.tooltip.paused"@),
        },
        OverallKind::Circuit => t_spec(locale, "tray.tooltip.circuit"@),
        OverallKind::Stopped => t_spec(locale, "tray.tooltip.stopped"@),
        OverallKind::Error => t_spec(locale, "tray.tooltip.error"@),
    }
}

/// Counts the mounted disks.
fn mounted_count(disks: &Vec<DiskStatus>) -> (r: u64)
    ensures
        r == count_mounted(disks@),
{
    let mut n: u64 = 0;
    let mut i: usize = 0;
    while i < disks.len()
        invariant
            i <= disks.len(),
            n == count_mounted(disks@.take(i as int)),
            n <= i,
        decreases disks.len() - i,
    {
        assert(disks@.take(i + 1).drop_last() =~= disks@.take(i as int));
        if disks[i].mounted {
            n += 1;
        }
        i += 1;
    }
    assert(disks@.take(disks.len() as int) =~= disks@);
    n
}

/// Seconds and nanoseconds (rounded down) of an instant in nanoseconds since the epoch.
pub fn split_nanos(t: i128) -> (r: (i64, u32))
    requires
        in_utc_range(t as int),
    ensures
        r.0 * 1_000_000_000 + r.1 == t,
        r.1 < 1_000_000_000,
{
    if t >= 0 {
        let u = t as u128;
        let q = u / 1_000_000_000;
        let m = u % 1_000_000_000;
        assert(q * 1_000_000_000 + m == u);
        (q as i64, m as u32)
    } else {
        let a = (0 - t) as u128;
        let q = a / 1_000_000_000;
        let m = a % 1_000_000_000;
        assert(q * 1_000_000_000 + m == a);
        if m == 0 {
            (0 - (q as i64), 0)
        } else {
            (0 - (q as i64) - 1, (1_000_000_000 - m) as u32)
        }
    }
}

/// The local `HH:MM` of an instant given in nanoseconds since the epoch; a text for every
/// instant chrono can hold.
fn clock_text_at(t: i128) -> (r: Option<String>)
    ensures
        in_utc_range(t as int) ==> r is Some,
        r matches Some(s) ==> clock_text_shape(s@),
{
    if t < MIN_UTC_NANOS || t > MAX_UTC_NANOS {
        return None;
    }
    let (secs, nsecs) = split_nanos(t);
    local_clock_text(secs, nsecs)
}

impl KeeperStatus {
    /// Sets `overall` from the other fields.
    pub fn recompute_overall(&mut self)
        ensures
            final(self).overall == overall_for(*old(self)),
            *final(self) == (KeeperStatus { overall: final(self).overall, ..*old(self) }),
    {
        if self.paused {
            self.overall = OverallKind::Paused;
            return;
        }
        if !self.wsl_available {
            self.overall = OverallKind::Error;
            return;
        }
        let mut circuit = self.wsl_circuit_open;
        let mut unmounted = false;
        let mut i: usize = 0;
        while i < self.disks.len()
            invariant
                i <= self.disks.len(),
                circuit == (self.wsl_circuit_open || exists|k: int|
                    0 <= k < i && #[trigger] self.disks@[k].enabled && self.disks@[k].circuit_open),
                unmounted == exists|k: int|
                    0 <= k < i && #[trigger] self.disks@[k].enabled && !self.disks@[k].mounted,
            decreases self.disks.len() - i,
        {
            let d = &self.disks[i];
            if d.enabled && d.circuit_open {
                circuit = true;
            }
            if d.enabled && !d.mounted {
                unmounted = true;
            }
            i += 1;
        }
        if circuit {
            self.overall = OverallKind::Circuit;
            return;
        }
        if self.distro_running {
            if unmounted {
                self.overall = OverallKind::Starting;
            } else {
                self.overall = OverallKind::Healthy;
            }
        } else if self.wsl_failures > 0 {
            self.overall = OverallKind::Starting;
        } else {
            self.overall = OverallKind::Stopped;
        }
    }

    /// The status line of the tray menu, such as `Status: Guardian is running`.
    pub fn tray_label(&self, locale: Locale) -> (r: String)
        ensures
            r@ == fill(
                t_spec(locale, "tray.status"@),
                seq![("state"@, t_spec(locale, overall_key(self.overall)))],
            ),
    {
        let state = match self.overall {
            OverallKind::Healthy => t(locale, "overall.ok"),
            OverallKind::Starting => t(locale, "overall.starting"),
            OverallKind::Paused => t(locale, "overall.paused"),
            OverallKind::Circuit => t(locale, "overall.circuit"),
            OverallKind::Stopped => t(locale, "overall.stopped"),
            OverallKind::Error => t(locale, "overall.error"),
        };
        let pairs: [(&str, &str); 1] = [("state", state)];
        let r = tf(locale, "tray.status", &pairs);
        assert(pair_views(pairs@) =~= seq![("state"@, t_spec(locale, overall_key(self.overall)))]);
        r
    }

    /// The tray tooltip, given how the pause's end reads on the local clock.
    pub fn tooltip_with_clock(&self, locale: Locale, clock: Option<String>) -> (r: String)
        ensures
            r@ == tooltip_spec(*self, locale, match clock {
                Some(c) => Some(c@),
                None => None,
            }),
    {
        match self.overall {
            OverallKind::Healthy => {
                let mut count: Vec<char> = Vec::new();
                push_decimal(&mut count, mounted_count(&self.disks));
                let count_text = string_of(&count);
                let pairs: [(&str, &str); 1] = [("count", count_text.as_str())];
                let r = tf(locale, "tray.tooltip.ok", &pairs);
                assert(pair_views(pairs@) =~= seq![("count"@, decimal(count_mounted(self.disks@)))]);
                r
            },
            OverallKind::Starting => String::from_str(t(locale, "tray.tooltip.starting")),
            OverallKind::Paused => match (self.pause_until, clock) {
                (Some(_), Some(c)) => {
                    let pairs: [(&str, &str); 1] = [("time", c.as_str())];
                    let r = tf(locale, "tray.tooltip.pausedUntil", &pairs);
                    assert(pair_views(pairs@) =~= seq![("time"@, c@)]);
                    r
                },
                _ => String::from_str(t(locale, "tray.tooltip.paused")),
            },
            OverallKind::Circuit => String::from_str(t(locale, "tray.tooltip.circuit")),
            OverallKind::Stopped => String::from_str(t(locale, "tray.tooltip.stopped")),
            OverallKind::Error => String::from_str(t(locale, "tray.tooltip.error")),
        }
    }

    /// The tray tooltip; a pause's end is shown as `HH:MM` on the machine's local clock.
    pub fn tooltip(&self, locale: Locale) -> (r: String)
        ensures
            exists|clock: Option<Seq<char>>|
                (clock matches Some(c) ==> clock_text_shape(c)) && r@ == tooltip_spec(
                    *self,
                    locale,
                    clock,
                ),
            self.pause_until matches Some(u) && in_utc_range(u as int) ==> exists|c: Seq<char>|
                clock_text_shape(c) && r@ == #[trigger] tooltip_spec(*self, locale, Some(c)),
    {
        let clock = match self.pause_until {
            Some(until) => clock_text_at(until),
            None => None,
        };
        let ghost cv = match &clock {
            Some(c) => Some(c@),
            None => None,
        };
        let r = self.tooltip_with_clock(locale, clock);
        assert(cv matches Some(c) ==> clock_text_shape(c));
        proof {
            if cv is Some {
                assert(r@ == tooltip_spec(*self, locale, Some(cv->0)));
            }
        }
        r
    }
}

/// The status of `rule`, with `live` the runtime record the disk guardian keeps for it.
pub open spec fn disk_status_spec(rule: DiskRule, live: Option<DiskRuntime>) -> DiskStatus {
    DiskStatus {
        rule_id: rule.id,
        name: rule.friendly_name,
        disk_number: rule.disk_number,
        partition: rule.partition,
        fs_type: rule.fs_type,
        mount_name: rule.mount_name,
        enabled: rule.enabled,
        mounted: match live {
            Some(d) => d.mounted,
            None => false,
        },
        device: match live {
            Some(d) => d.device,
            None => None,
        },
        last_error: match live {
            Some(d) => d.last_error,
            None => None,
        },
        failures: match live {
            Some(d) => d.failures,
            None => 0,
        },
        circuit_open: match live {
            Some(d) => d.circuit_open,
            None => false,
        },
        next_retry: match live {
            Some(d) => d.next_retry,
            None => None,
        },
    }
}

/// A copy of an optional text.
fn clone_opt(s: &Option<String>) -> (r: Option<String>)
    ensures
        r == *s,
{
    match s {
        Some(x) => Some(x.clone()),
        None => None,
    }
}

/// The status of one disk rule.
fn disk_status(rule: &DiskRule, live: Option<&DiskRuntime>) -> (r: DiskStatus)
    ensures
        r == disk_status_spec(*rule, match live {
            Some(d) => Some(*d),
            None => None,
        }),
{
    DiskStatus {
        rule_id: rule.id.clone(),
        name: rule.friendly_name.clone(),
        disk_number: rule.disk_number,
        partition: rule.partition,
        fs_type: rule.fs_type.clone(),
        mount_name: rule.mount_name.clone(),
        enabled: rule.enabled,
        mounted: match live {
            Some(d) => d.mounted,
            None => false,
        },
        device: match live {
            Some(d) => clone_opt(&d.device),
            None => None,
        },
        last_error: match live {
            Some(d) => clone_opt(&d.last_error),
            None => None,
        },
        failures: match live {
            Some(d) => d.failures,
            None => 0,
        },
        circuit_open: match live {
            Some(d) => d.circuit_open,
            None => false,
        },
        next_retry: match live {
            Some(d) => d.next_retry,
            None => None,
        },
    }
}

/// Whether the guardian counts as paused at `now`: switched off, or inside a pause.
pub open spec fn paused_at(cfg: AppConfig, now: i128) -> bool {
    !cfg.guardian_enabled || match cfg.pause_state {
        Some(p) => now < p.until,
        None => false,
    }
}

/// What `build` gives at the wall-clock time `now`.
pub open spec fn built_at(cfg: AppConfig, rt: RuntimeInner, now: i128, s: KeeperStatus) -> bool {
    &&& s.disks@ == cfg.disk_rules@.map_values(
        |rule: DiskRule| disk_status_spec(rule, lookup(rt.disks@, rule.id@)),
    )
    &&& s.distro == cfg.distro
    &&& s.distro_running == rt.distro_running
    &&& s.distro_version == rt.distro_version
    &&& s.wsl_available == rt.wsl_available
    &&& s.mount_supported == rt.mount_supported
    &&& s.paused == paused_at(cfg, now)
    &&& s.pause_until == (match cfg.pause_state {
        Some(p) => if now < p.until {
            Some(p.until)
        } else {
            None
        },
        None => None,
    })
    &&& s.running_since == rt.running_since
    &&& s.last_check == (match rt.last_check {
        Some(c) => Some(c),
        None => Some(now),
    })
    &&& s.last_error == rt.last_error
    &&& s.wsl_failures == rt.wsl_failures
    &&& s.wsl_circuit_open == rt.wsl_circuit_open
    &&& s.mount_task_exists == rt.mount_task_exists
    &&& s.overall == overall_for(s)
}

/// The status of the guardian from the configuration and the runtime state, at `now`
/// (nanoseconds since the Unix epoch).
pub fn build_at(cfg: &AppConfig, rt: &RuntimeInner, now: i128) -> (r: KeeperStatus)
    ensures
        built_at(*cfg, *rt, now, r),
{
    let paused = !cfg.guardian_enabled || match cfg.pause_state {
        Some(p) => p.is_active_at(now),
        None => false,
    };
    let pause_until = match cfg.pause_state {
        Some(p) => if p.is_active_at(now) {
            Some(p.until)
        } else {
            None
        },
        None => None,
    };
    let mut disks: Vec<DiskStatus> = Vec::new();
    let mut i: usize = 0;
    while i < cfg.disk_rules.len()
        invariant
            i <= cfg.disk_rules.len(),
            disks@ == cfg.disk_rules@.take(i as int).map_values(
                |rule: DiskRule| disk_status_spec(rule, lookup(rt.disks@, rule.id@)),
            ),
        decreases cfg.disk_rules.len() - i,
    {
        let rule = &cfg.disk_rules[i];
        let live = rt.disk(rule.id.as_str());
        disks.push(disk_status(rule, live));
        assert(disks@ =~= cfg.disk_rules@.take(i + 1).map_values(
            |rule: DiskRule| disk_status_spec(rule, lookup(rt.disks@, rule.id@)),
        ));
        i += 1;
    }
    assert(cfg.disk_rules@.take(cfg.disk_rules.len() as int) =~= cfg.disk_rules@);
    let mut status = KeeperStatus {
        overall: OverallKind::Stopped,
        distro: cfg.distro.clone(),
        distro_running: rt.distro_running,
        distro_version: rt.distro_version,
        wsl_available: rt.wsl_available,
        mount_supported: rt.mount_supported,
        paused,
        pause_until,
        running_since: rt.running_since,
        last_check: match rt.last_check {
            Some(c) => Some(c),
            None => Some(now),
        },
        last_error: clone_opt(&rt.last_error),
        wsl_failures: rt.wsl_failures,
        wsl_circuit_open: rt.wsl_circuit_open,
        mount_task_exists: rt.mount_task_exists,
        disks,
    };
    status.recompute_overall();
    status
}

/// The status of the guardian from the configuration and the runtime state, now.
pub fn build(cfg: &AppConfig, rt: &RuntimeInner) -> (r: KeeperStatus)
    ensures
        exists|now: i128| now >= 0 && built_at(*cfg, *rt, now, r),
{
    let now = now_nanos();
    build_at(cfg, rt, now)
}

/// The guardian shows as paused whenever it is switched off or inside a pause, whatever WSL
/// and the disks are doing.
pub proof fn lemma_paused_shows_paused(cfg: AppConfig, rt: RuntimeInner, now: i128, s: KeeperStatus)
    requires
        built_at(cfg, rt, now, s),
        paused_at(cfg, now),
    ensures
        s.overall == OverallKind::Paused,
{
}

/// A pause of `minutes > 0` started at `now` holds at `now` and is over `minutes` later.
pub proof fn lemma_pause_window(cfg: AppConfig, now: i128, minutes: u32)
    requires
        cfg.guardian_enabled,
        minutes > 0,
        cfg.pause_state == Some(PauseState { until: pause_end(now as int, Some(minutes)) as i128 }),
        pause_fits_spec(now as int, Some(minutes)),
    ensures
        paused_at(cfg, now),
        !paused_at(cfg, pause_end(now as int, Some(minutes)) as i128),
{
}

/// After `resume`, the guardian is not paused at any time.
pub proof fn lemma_resumed_not_paused(cfg: AppConfig, any_time: i128)
    requires
        cfg.guardian_enabled,
        cfg.pause_state is None,
    ensures
        !paused_at(cfg, any_time),
{
}


/// The overall state of a status, in order of precedence: a paused guardian shows Paused;
/// otherwise missing WSL shows Error; otherwise an open circuit breaker (of WSL, or of an
/// enabled disk) shows Circuit; otherwise a running distro shows Healthy when every enabled
/// disk is mounted and Starting when one is not; otherwise WSL shows Starting after failed
/// starts and Stopped before any.
pub proof fn lemma_overall_precedence(s: KeeperStatus)
    ensures
        s.paused ==> overall_for(s) == OverallKind::Paused,
        !s.paused && !s.wsl_available ==> overall_for(s) == OverallKind::Error,
        !s.paused && s.wsl_available && s.wsl_circuit_open ==> overall_for(s) == OverallKind::Circuit,
        forall|k: int|
            0 <= k < s.disks@.len() && #[trigger] s.disks@[k].enabled && s.disks@[k].circuit_open
                && !s.paused && s.wsl_available ==> overall_for(s) == OverallKind::Circuit,
        ({
            let quiet = !s.paused && s.wsl_available && !s.wsl_circuit_open && forall|k: int|
                0 <= k < s.disks@.len() && #[trigger] s.disks@[k].enabled ==> !s.disks@[k].circuit_open;
            let all_mounted = forall|k: int|
                0 <= k < s.disks@.len() && #[trigger] s.disks@[k].enabled ==> s.disks@[k].mounted;
            &&& quiet && s.distro_running && all_mounted ==> overall_for(s) == OverallKind::Healthy
            &&& quiet && s.distro_running && !all_mounted ==> overall_for(s) == OverallKind::Starting
            &&& quiet && !s.distro_running && s.wsl_failures > 0 ==> overall_for(s) == OverallKind::Starting
            &&& quiet && !s.distro_running && s.wsl_failures == 0 ==> overall_for(s) == OverallKind::Stopped
        }),
{
}

/// Built from a configuration whose guardian is on and not inside a pause, with WSL
/// available and its circuit breaker open, the status shows Circuit.
pub proof fn lemma_open_wsl_breaker_shows_circuit(cfg: AppConfig, rt: RuntimeInner, now: i128, s: KeeperStatus)
    requires
        built_at(cfg, rt, now, s),
        cfg.guardian_enabled,
        !(cfg.pause_state matches Some(p) && now < p.until),
        rt.wsl_available,
        rt.wsl_circuit_open,
    ensures
        s.overall == OverallKind::Circuit,
{
    lemma_overall_precedence(s);
}

} // verus!
