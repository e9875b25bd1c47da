//! The decisions of the WSL and disk guardians, as transitions of their runtime state.
use vstd::prelude::*;
use crate::bindings::{now_nanos, MAX_UTC_NANOS};
use crate::config::{AppConfig, DiskRule};
use crate::i18n::{fill, pair_views, t, t_spec, tf, Locale};
use crate::state::{fresh_disk_runtime, lookup, text_set, DiskEntry, DiskRuntime, ResetFlags, RuntimeInner};
use crate::text::{ascii_lower, eq_ignore_ascii_case, trim, trimmed};
use crate::wsl::{distro_models, DistroInfo, DistroModel};

verus! {

/// How long the WSL guardian waits after a failed start, in seconds.
pub const FAIL_INTERVAL_SECS: u64 = 30;

/// How long a new WSL session must stay up before it counts as started, in seconds.
pub const STABLE_AFTER_SECS: u64 = 2;

/// How long the configuration must stay unchanged before an edited init command runs, in seconds.
pub const INIT_SETTLE_SECS: u64 = 3;

/// How many consecutive failures open a circuit breaker.
pub const CIRCUIT_THRESHOLD: u32 = 10;

/// How long an open circuit breaker stays open, in nanoseconds.
pub const CIRCUIT_RESET_NANOS: u64 = 1_800_000_000_000;

/// How often the disk guardian checks, in seconds.
pub const CHECK_TICK_SECS: u64 = 15;

/// The shortest retry interval after repeated mount failures, in seconds.
pub const INITIAL_RETRY_SECS: u64 = 30;

/// The longest retry interval, in seconds.
pub const MAX_RETRY_SECS: u64 = 600;

/// The interval after a successful mount, in seconds.
pub const SUCCESS_INTERVAL_SECS: u64 = 300;

/// The interval after the first failure, in seconds.
pub const FIRST_UNMOUNTED_INTERVAL_SECS: u64 = 60;

/// The latest wall-clock time at which a retry can be scheduled: ten minutes (the longest
/// interval) before chrono's last instant, past which the addition panics there.
pub const RETRY_BASE_LIMIT: i128 = 8_210_266_876_199_999_999_999;

/// Whether the guardian should keep WSL running at `now`: it is switched on, a distro is
/// configured, and no pause is running.
pub open spec fn should_run_spec(cfg: AppConfig, now: i128) -> bool {
    &&& cfg.guardian_enabled
    &&& trim(cfg.distro@).len() > 0
    &&& !(cfg.pause_state matches Some(p) && now < p.until)
}

/// Whether the guardian should keep WSL running at `now` (nanoseconds since the epoch).
pub fn guardian_should_run_at(cfg: &AppConfig, now: i128) -> (r: bool)
    ensures
        r == should_run_spec(*cfg, now),
{
    cfg.guardian_enabled && !trimmed(cfg.distro.as_str()).as_str().is_empty() && !match cfg.pause_state {
        Some(p) => p.is_active_at(now),
        None => false,
    }
}

/// Whether the guardian should keep WSL running now, by the wall clock.
pub fn guardian_should_run(cfg: &AppConfig) -> (r: bool)
    ensures
        exists|now: i128| now >= 0 && r == should_run_spec(*cfg, now),
{
    let now = now_nanos();
    guardian_should_run_at(cfg, now)
}

/// The init command to run when WSL starts: the configured one, trimmed, unless blank.
pub open spec fn normalized_init_spec(cfg: AppConfig) -> Option<Seq<char>> {
    match cfg.init_command {
        Some(c) => if trim(c@).len() > 0 {
            Some(trim(c@))
        } else {
            None
        },
        None => None,
    }
}

/// The init command to run when WSL starts, if one is configured.
pub fn normalized_init(cfg: &AppConfig) -> (r: Option<String>)
    ensures
        match r {
            Some(c) => normalized_init_spec(*cfg) == Some(c@),
            None => normalized_init_spec(*cfg) is None,
        },
{
    match &cfg.init_command {
        Some(c) => {
            let t = trimmed(c.as_str());
            if t.as_str().is_empty() {
                None
            } else {
                Some(t)
            }
        },
        None => None,
    }
}

/// Whether at least `span` nanoseconds have passed from `since` to `now` on the monotonic
/// clock (a clock reading before `since` counts as no time passed).
pub open spec fn elapsed_at_least(now: u64, since: u64, span: u64) -> bool {
    now >= since && now - since >= span
}

/// The outcome of the checks before the WSL guardian starts a session.
#[derive(Clone, Copy, Debug, PartialEq, Eq, Structural)]
pub enum StartCheck {
    /// The circuit breaker is open: wait, without publishing.
    CircuitOpen,
    /// WSL or the distro is missing: the error is recorded, publish and wait.
    Refused,
    /// Start the session.
    Ready,
}

/// The runtime after a requested reset of the WSL circuit breaker.
pub open spec fn after_wsl_reset(rt: RuntimeInner) -> RuntimeInner {
    RuntimeInner {
        wsl_circuit_open: false,
        wsl_circuit_opened_at: None,
        wsl_failures: 0,
        last_error: None,
        ..rt
    }
}

/// The runtime after the circuit breaker closed by itself.
pub open spec fn after_wsl_auto_reset(rt: RuntimeInner) -> RuntimeInner {
    RuntimeInner { wsl_circuit_open: false, wsl_circuit_opened_at: None, wsl_failures: 0, ..rt }
}

/// Whether some distribution is named `name`, ignoring ASCII case.
pub open spec fn distro_listed(ds: Seq<DistroModel>, name: Seq<char>) -> bool {
    exists|i: int| 0 <= i < ds.len() && ascii_lower(#[trigger] ds[i].name) == ascii_lower(name)
}

/// What `ensure_can_start` decides and leaves in the runtime: a requested reset closes the
/// circuit breaker; an open breaker blocks until half an hour after it opened, then closes;
/// a missing WSL or an unknown distro is recorded as the error.
pub open spec fn start_check_spec(
    rt: RuntimeInner,
    reset: bool,
    now: u64,
    ds: Seq<DistroModel>,
    distro: Seq<char>,
    locale: Locale,
) -> (StartCheck, RuntimeInner) {
    let r1 = if reset {
        after_wsl_reset(rt)
    } else {
        rt
    };
    let blocked = r1.wsl_circuit_open && !(r1.wsl_circuit_opened_at matches Some(o)
        && elapsed_at_least(now, o, CIRCUIT_RESET_NANOS));
    let r2 = if r1.wsl_circuit_open {
        after_wsl_auto_reset(r1)
    } else {
        r1
    };
    if blocked {
        (StartCheck::CircuitOpen, r1)
    } else if !r2.wsl_available {
        (StartCheck::Refused, RuntimeInner { distro_running: false, ..r2 })
    } else if !distro_listed(ds, distro) {
        (StartCheck::Refused, RuntimeInner { distro_running: false, ..r2 })
    } else {
        (StartCheck::Ready, r2)
    }
}

/// The error recorded when `ensure_can_start` refuses.
pub open spec fn refusal_error(wsl_available: bool, distro: Seq<char>, locale: Locale) -> Seq<char> {
    if !wsl_available {
        t_spec(locale, "error.wslMissing"@)
    } else {
        fill(t_spec(locale, "error.distroNotFound"@), seq![("name"@, distro)])
    }
}

/// Whether `distros` lists `name`, ignoring ASCII case.
fn has_distro(distros: &[DistroInfo], name: &str) -> (r: bool)
    ensures
        r == distro_listed(distro_models(distros@), name@),
{
    let ghost m = distro_models(distros@);
    let mut i: usize = 0;
    while i < distros.len()
        invariant
            i <= distros.len(),
            m == distro_models(distros@),
            forall|k: int| 0 <= k < i ==> ascii_lower(#[trigger] m[k].name) != ascii_lower(name@),
        decreases distros.len() - i,
    {
        assert(m[i as int] == distros@[i as int]@);
        if eq_ignore_ascii_case(distros[i].name.as_str(), name) {
            assert(ascii_lower(m[i as int].name) == ascii_lower(name@));
            return true;
        }
        i += 1;
    }
    false
}

/// Decides whether the WSL guardian may start a session, updating the runtime state.
/// `reset_requested` is whether the user asked to reset the circuit breaker, `now` the
/// monotonic clock in nanoseconds and `distros` the last known list of distributions.
pub fn ensure_can_start(
    rt: &mut RuntimeInner,
    reset_requested: bool,
    now: u64,
    distros: &[DistroInfo],
    distro: &str,
    locale: Locale,
) -> (r: StartCheck)
    ensures
        ({
            let (c, spec_rt) = start_check_spec(
                *old(rt),
                reset_requested,
                now,
                distro_models(distros@),
                distro@,
                locale,
            );
            &&& r == c
            &&& r == StartCheck::Refused ==> (final(rt).last_error matches Some(e) && e@ == refusal_error(
                spec_rt.wsl_available,
                distro@,
                locale,
            ))
            &&& *final(rt) == (RuntimeInner { last_error: final(rt).last_error, ..spec_rt })
            &&& r != StartCheck::Refused ==> final(rt).last_error == spec_rt.last_error
        }),
{
    if reset_requested {
        rt.wsl_circuit_open = false;
        rt.wsl_circuit_opened_at = None;
        rt.wsl_failures = 0;
        rt.last_error = None;
    }
    if rt.wsl_circuit_open {
        match rt.wsl_circuit_opened_at {
            Some(opened) => {
                if now >= opened && now - opened >= CIRCUIT_RESET_NANOS {
                    rt.wsl_circuit_open = false;
                    rt.wsl_circuit_opened_at = None;
                    rt.wsl_failures = 0;
                } else {
                    return StartCheck::CircuitOpen;
                }
            },
            None => {
                return StartCheck::CircuitOpen;
            },
        }
    }
    if !rt.wsl_available {
        rt.distro_running = false;
        rt.last_error = Some(String::from_str(t(locale, "error.wslMissing")));
        return StartCheck::Refused;
    }
    if !has_distro(distros, distro) {
        rt.distro_running = false;
        let pairs: [(&str, &str); 1] = [("name", distro)];
        rt.last_error = Some(tf(locale, "error.distroNotFound", &pairs));
        assert(pair_views(pairs@) =~= seq![("name"@, distro@)]);
        return StartCheck::Refused;
    }
    StartCheck::Ready
}

/// The runtime after a failed start of WSL with `error`, at `now` on the monotonic clock:
/// one more failure, and the circuit breaker opens at the threshold.
pub open spec fn after_start_failure(rt: RuntimeInner, error: Option<String>, now: u64) -> RuntimeInner {
    let failures = (rt.wsl_failures + 1) as u32;
    if failures >= CIRCUIT_THRESHOLD {
        RuntimeInner {
            distro_running: false,
            last_error: error,
            wsl_failures: failures,
            wsl_circuit_open: true,
            wsl_circuit_opened_at: Some(now),
            ..rt
        }
    } else {
        RuntimeInner { distro_running: false, last_error: error, wsl_failures: failures, ..rt }
    }
}

/// Records a failed start of WSL; true when the circuit breaker is (still) open, which is
/// when the user is notified.
pub fn record_start_failure(rt: &mut RuntimeInner, error: String, now: u64) -> (opened: bool)
    requires
        old(rt).wsl_failures < u32::MAX,
    ensures
        *final(rt) == after_start_failure(*old(rt), Some(error), now),
        opened == (old(rt).wsl_failures + 1 >= CIRCUIT_THRESHOLD),
{
    rt.distro_running = false;
    rt.last_error = Some(error);
    rt.wsl_failures = rt.wsl_failures + 1;
    if rt.wsl_failures >= CIRCUIT_THRESHOLD {
        rt.wsl_circuit_open = true;
        rt.wsl_circuit_opened_at = Some(now);
        true
    } else {
        false
    }
}

/// A copy of an optional text.
fn copy_text(s: &Option<String>) -> (r: Option<String>)
    ensures
        r == *s,
{
    match s {
        Some(x) => Some(x.clone()),
        None => None,
    }
}

/// A copy of a disk's runtime record.
pub fn copy_runtime(d: &DiskRuntime) -> (r: DiskRuntime)
    ensures
        r == *d,
{
    DiskRuntime {
        mounted: d.mounted,
        device: copy_text(&d.device),
        last_error: copy_text(&d.last_error),
        failures: d.failures,
        circuit_open: d.circuit_open,
        circuit_opened_at: d.circuit_opened_at,
        next_retry: d.next_retry,
        interval: d.interval,
    }
}

/// A disk's record once WSL runs again: no retry is scheduled.
pub open spec fn running_disk(d: DiskRuntime) -> DiskRuntime {
    DiskRuntime { next_retry: None, ..d }
}

/// A disk's record once WSL stopped: nothing is mounted, no retry is scheduled, and the
/// error is kept only while the circuit breaker is open.
pub open spec fn stopped_disk(d: DiskRuntime) -> DiskRuntime {
    DiskRuntime {
        mounted: false,
        device: None,
        next_retry: None,
        last_error: if d.circuit_open {
            d.last_error
        } else {
            None
        },
        ..d
    }
}

/// Whether `new` holds the records of `old` with each state changed to `running_disk` (when
/// `running`) or `stopped_disk`.
pub open spec fn disks_mapped(old: Seq<DiskEntry>, new: Seq<DiskEntry>, running: bool) -> bool {
    &&& new.len() == old.len()
    &&& forall|i: int|
        0 <= i < old.len() ==> (#[trigger] new[i]).rule_id == old[i].rule_id && new[i].state == if running {
            running_disk(old[i].state)
        } else {
            stopped_disk(old[i].state)
        }
}

/// Applies `running_disk` or `stopped_disk` to every disk record.
fn map_disks(disks: &mut Vec<DiskEntry>, running: bool)
    ensures
        disks_mapped(old(disks)@, final(disks)@, running),
{
    let ghost before = disks@;
    let mut i: usize = 0;
    while i < disks.len()
        invariant
            i <= disks.len() == before.len(),
            forall|k: int|
                0 <= k < i ==> (#[trigger] disks@[k]).rule_id == before[k].rule_id && disks@[k].state == if running {
                    running_disk(before[k].state)
                } else {
                    stopped_disk(before[k].state)
                },
            forall|k: int| i <= k < disks.len() ==> #[trigger] disks@[k] == before[k],
        decreases disks.len() - i,
    {
        let mut state = copy_runtime(&disks[i].state);
        state.next_retry = None;
        if !running {
            state.mounted = false;
            state.device = None;
            if !state.circuit_open {
                state.last_error = None;
            }
        }
        let rule_id = disks[i].rule_id.clone();
        disks.set(i, DiskEntry { rule_id, state });
        i += 1;
    }
}

/// Records that the WSL session started at wall-clock time `now`.
pub fn mark_running(rt: &mut RuntimeInner, now: i128)
    ensures
        final(rt).running_since == (match old(rt).running_since {
            Some(t) => Some(t),
            None => Some(now),
        }),
        final(rt).distro_running,
        final(rt).wsl_failures == 0,
        final(rt).last_error is None,
        final(rt).last_check == Some(now),
        disks_mapped(old(rt).disks@, final(rt).disks@, true),
        final(rt).wsl_available == old(rt).wsl_available,
        final(rt).wsl_circuit_open == old(rt).wsl_circuit_open,
        final(rt).wsl_circuit_opened_at == old(rt).wsl_circuit_opened_at,
        final(rt).distro_version == old(rt).distro_version,
        final(rt).mount_supported == old(rt).mount_supported,
        final(rt).mount_task_exists == old(rt).mount_task_exists,
        old(rt).wf() ==> final(rt).wf(),
{
    if rt.running_since.is_none() {
        rt.running_since = Some(now);
    }
    rt.distro_running = true;
    rt.wsl_failures = 0;
    rt.last_error = None;
    rt.last_check = Some(now);
    map_disks(&mut rt.disks, true);
}

/// Whether `after` is `before` once the WSL session ended at wall-clock time `now`: not
/// running, no start time, checked at `now`, every disk stopped, all else kept.
pub open spec fn stopped_from(before: RuntimeInner, after: RuntimeInner, now: i128) -> bool {
    &&& !after.distro_running
    &&& after.running_since is None
    &&& after.last_check == Some(now)
    &&& disks_mapped(before.disks@, after.disks@, false)
    &&& after.wsl_failures == before.wsl_failures
    &&& after.last_error == before.last_error
    &&& after.wsl_available == before.wsl_available
    &&& after.wsl_circuit_open == before.wsl_circuit_open
    &&& after.wsl_circuit_opened_at == before.wsl_circuit_opened_at
    &&& after.distro_version == before.distro_version
    &&& after.mount_supported == before.mount_supported
    &&& after.mount_task_exists == before.mount_task_exists
    &&& (before.wf() ==> after.wf())
}

/// Records that the WSL session ended, at wall-clock time `now`.
pub fn mark_stopped(rt: &mut RuntimeInner, now: i128)
    ensures
        stopped_from(*old(rt), *final(rt), now),
{
    rt.distro_running = false;
    rt.running_since = None;
    rt.last_check = Some(now);
    map_disks(&mut rt.disks, false);
}

/// The WSL version of the first distribution named `name` (ignoring ASCII case), if any.
pub open spec fn version_of(ds: Seq<DistroModel>, name: Seq<char>) -> Option<u32>
    decreases ds.len(),
{
    if ds.len() == 0 {
        None
    } else if ascii_lower(ds[0].name) == ascii_lower(name) {
        Some(ds[0].version)
    } else {
        version_of(ds.drop_first(), name)
    }
}

/// The WSL version of the distribution named `name`, ignoring ASCII case.
fn find_version(distros: &[DistroInfo], name: &str) -> (r: Option<u32>)
    ensures
        r == version_of(distro_models(distros@), name@),
{
    let ghost m = distro_models(distros@);
    let mut i: usize = 0;
    assert(m.skip(0) =~= m);
    while i < distros.len()
        invariant
            i <= distros.len(),
            m == distro_models(distros@),
            version_of(m.skip(i as int), name@) == version_of(m, name@),
        decreases distros.len() - i,
    {
        assert(m.skip(i as int)[0] == distros@[i as int]@);
        if eq_ignore_ascii_case(distros[i].name.as_str(), name) {
            return Some(distros[i].version);
        }
        assert(m.skip(i as int).drop_first() =~= m.skip(i + 1));
        i += 1;
    }
    assert(m.skip(i as int).len() == 0);
    None
}

/// Records what a refresh of the inventory found: whether WSL is installed, the distro's
/// WSL version (mounting needs version 2), whether the mount task exists, and when.
pub fn apply_inventory(
    rt: &mut RuntimeInner,
    wsl_installed: bool,
    distros: &[DistroInfo],
    distro: &str,
    task_exists: bool,
    now: i128,
)
    ensures
        final(rt).wsl_available == wsl_installed,
        final(rt).distro_version == version_of(distro_models(distros@), distro@),
        final(rt).mount_supported == (match version_of(distro_models(distros@), distro@) {
            Some(v) => v >= 2,
            None => false,
        }),
        final(rt).last_check == Some(now),
        final(rt).mount_task_exists == task_exists,
        *final(rt) == (RuntimeInner {
            wsl_available: final(rt).wsl_available,
            distro_version: final(rt).distro_version,
            mount_supported: final(rt).mount_supported,
            last_check: final(rt).last_check,
            mount_task_exists: final(rt).mount_task_exists,
            ..*old(rt)
        }),
{
    let version = find_version(distros, distro);
    rt.wsl_available = wsl_installed;
    rt.distro_version = version;
    rt.mount_supported = match version {
        Some(v) => v >= 2,
        None => false,
    };
    rt.last_check = Some(now);
    rt.mount_task_exists = task_exists;
}

/// What the disk guardian does with a rule before probing it.
#[derive(Clone, Copy, Debug, PartialEq, Eq, Structural)]
pub enum DiskGate {
    /// The circuit breaker is open without a known opening time: skip the rule.
    Skip,
    /// The circuit breaker is open: store the record as it is and skip the rule.
    Hold,
    /// Probe and, if needed, mount.
    Proceed,
}

/// The decision for a disk's state at monotonic time `now`, with the state to continue
/// from: an open breaker closes, and the state starts afresh, half an hour after it opened.
pub open spec fn gate_spec(d: DiskRuntime, now: u64) -> (DiskGate, DiskRuntime) {
    if d.circuit_open {
        match d.circuit_opened_at {
            Some(o) => if elapsed_at_least(now, o, CIRCUIT_RESET_NANOS) {
                (DiskGate::Proceed, fresh_disk_runtime())
            } else {
                (DiskGate::Hold, d)
            },
            None => (DiskGate::Skip, d),
        }
    } else {
        (DiskGate::Proceed, d)
    }
}

/// Checks the circuit breaker of a disk record at `now` on the monotonic clock.
pub fn disk_gate(d: &mut DiskRuntime, now: u64) -> (r: DiskGate)
    ensures
        (r, *final(d)) == gate_spec(*old(d), now),
{
    if d.circuit_open {
        match d.circuit_opened_at {
            Some(o) => {
                if now >= o && now - o >= CIRCUIT_RESET_NANOS {
                    *d = DiskRuntime::default();
                    DiskGate::Proceed
                } else {
                    DiskGate::Hold
                }
            },
            None => DiskGate::Skip,
        }
    } else {
        DiskGate::Proceed
    }
}

/// A disk record after the partition was found mounted (from `device`, when known).
pub open spec fn after_mounted(d: DiskRuntime, device: Option<String>) -> DiskRuntime {
    DiskRuntime {
        mounted: true,
        device: match device {
            Some(x) => Some(x),
            None => d.device,
        },
        failures: 0,
        circuit_open: false,
        circuit_opened_at: None,
        last_error: None,
        interval: SUCCESS_INTERVAL_SECS,
        next_retry: None,
    }
}

/// Records that the partition is mounted.
pub fn record_mounted(d: &mut DiskRuntime, device: Option<String>)
    ensures
        *final(d) == after_mounted(*old(d), device),
{
    d.mounted = true;
    match device {
        Some(x) => {
            d.device = Some(x);
        },
        None => {},
    }
    d.failures = 0;
    d.circuit_open = false;
    d.circuit_opened_at = None;
    d.last_error = None;
    d.interval = SUCCESS_INTERVAL_SECS;
    d.next_retry = None;
}

/// Whether a retry after earlier failures is not due yet at wall-clock time `now`.
pub open spec fn retry_pending_spec(d: DiskRuntime, now: i128) -> bool {
    d.failures > 0 && (d.next_retry matches Some(n) && now < n)
}

/// When a retry is not due yet, marks the disk unmounted and says so; the guardian then
/// stores the record and moves on.
pub fn hold_for_retry(d: &mut DiskRuntime, now: i128) -> (pending: bool)
    ensures
        pending == retry_pending_spec(*old(d), now),
        pending ==> *final(d) == (DiskRuntime { mounted: false, ..*old(d) }),
        !pending ==> *final(d) == *old(d),
{
    if d.failures > 0 {
        match d.next_retry {
            Some(n) => {
                if now < n {
                    d.mounted = false;
                    return true;
                }
            },
            None => {},
        }
    }
    false
}

/// Before a mount attempt: a record without an interval gets the first-failure interval.
pub fn prepare_attempt(d: &mut DiskRuntime)
    ensures
        *final(d) == (DiskRuntime {
            interval: if old(d).interval == 0 {
                FIRST_UNMOUNTED_INTERVAL_SECS
            } else {
                old(d).interval
            },
            ..*old(d)
        }),
{
    if d.interval == 0 {
        d.interval = FIRST_UNMOUNTED_INTERVAL_SECS;
    }
}

/// The retry interval after failure number `failures`, growing from `interval`: a minute
/// after the first failure; after later ones, double the interval, between 30 seconds and
/// 10 minutes.
pub open spec fn next_interval(failures: u32, interval: u64) -> u64 {
    if failures == 1 {
        FIRST_UNMOUNTED_INTERVAL_SECS
    } else {
        let grown: u64 = if interval <= u64::MAX / 2 {
            (interval * 2) as u64
        } else {
            u64::MAX
        };
        let capped: u64 = if grown < MAX_RETRY_SECS {
            grown
        } else {
            MAX_RETRY_SECS
        };
        if capped > INITIAL_RETRY_SECS {
            capped
        } else {
            INITIAL_RETRY_SECS
        }
    }
}

/// A disk record after a failed mount with `error`, at wall-clock time `wall` and monotonic
/// time `mono`: one more failure; at the threshold the circuit breaker opens, otherwise the
/// next attempt is scheduled after the next interval.
pub open spec fn after_mount_failure(d: DiskRuntime, error: Option<String>, wall: i128, mono: u64) -> DiskRuntime {
    let failures = (d.failures + 1) as u32;
    if failures >= CIRCUIT_THRESHOLD {
        DiskRuntime {
            mounted: false,
            failures,
            last_error: error,
            circuit_open: true,
            circuit_opened_at: Some(mono),
            ..d
        }
    } else {
        let next = next_interval(failures, d.interval);
        DiskRuntime {
            mounted: false,
            failures,
            last_error: error,
            interval: next,
            next_retry: Some((wall + next * 1_000_000_000) as i128),
            ..d
        }
    }
}

/// Records a failed mount; true when the circuit breaker is (still) open, which is when the
/// user is notified.
pub fn record_mount_failure(d: &mut DiskRuntime, error: String, wall: i128, mono: u64) -> (opened: bool)
    requires
        old(d).failures < u32::MAX,
        wall <= RETRY_BASE_LIMIT,
    ensures
        *final(d) == after_mount_failure(*old(d), Some(error), wall, mono),
        opened == (old(d).failures + 1 >= CIRCUIT_THRESHOLD),
{
    d.mounted = false;
    d.failures = d.failures + 1;
    d.last_error = Some(error);
    if d.failures >= CIRCUIT_THRESHOLD {
        d.circuit_open = true;
        d.circuit_opened_at = Some(mono);
        true
    } else {
        let next: u64 = if d.failures == 1 {
            FIRST_UNMOUNTED_INTERVAL_SECS
        } else {
            let grown: u64 = if d.interval <= u64::MAX / 2 {
                d.interval * 2
            } else {
                u64::MAX
            };
            let capped = if grown < MAX_RETRY_SECS {
                grown
            } else {
                MAX_RETRY_SECS
            };
            if capped > INITIAL_RETRY_SECS {
                capped
            } else {
                INITIAL_RETRY_SECS
            }
        };
        d.interval = next;
        d.next_retry = Some(wall + (next as i128) * 1_000_000_000);
        false
    }
}

/// After any failed mount that leaves the circuit breaker closed, the next attempt waits
/// between 30 seconds and 10 minutes.
pub proof fn lemma_retry_interval_bounded(d: DiskRuntime, error: Option<String>, wall: i128, mono: u64)
    requires
        d.failures + 1 < CIRCUIT_THRESHOLD,
    ensures
        INITIAL_RETRY_SECS <= after_mount_failure(d, error, wall, mono).interval <= MAX_RETRY_SECS,
{
}

/// A successful mount restarts the backoff: the next failure is the first again and waits
/// one minute.
pub proof fn lemma_success_restarts_backoff(
    d: DiskRuntime,
    device: Option<String>,
    error: Option<String>,
    wall: i128,
    mono: u64,
)
    ensures
        after_mount_failure(after_mounted(d, device), error, wall, mono).failures == 1,
        !after_mount_failure(after_mounted(d, device), error, wall, mono).circuit_open,
        after_mount_failure(after_mounted(d, device), error, wall, mono).interval
            == FIRST_UNMOUNTED_INTERVAL_SECS,
{
}

/// A disk record after `k` failed mounts in a row.
pub open spec fn mount_failures(d: DiskRuntime, k: nat, error: Option<String>, wall: i128, mono: u64) -> DiskRuntime
    decreases k,
{
    if k == 0 {
        d
    } else {
        after_mount_failure(mount_failures(d, (k - 1) as nat, error, wall, mono), error, wall, mono)
    }
}

/// Starting from a fresh record, `k` failed mounts in a row count `k` failures, and the
/// circuit breaker is open exactly when `k` has reached the threshold of 10.
pub proof fn lemma_circuit_opens_at_threshold(k: nat, error: Option<String>, wall: i128, mono: u64)
    requires
        k < u32::MAX,
    ensures
        mount_failures(fresh_disk_runtime(), k, error, wall, mono).failures == k,
        mount_failures(fresh_disk_runtime(), k, error, wall, mono).circuit_open <==> k >= CIRCUIT_THRESHOLD,
    decreases k,
{
    if k > 0 {
        lemma_circuit_opens_at_threshold((k - 1) as nat, error, wall, mono);
    }
}

/// The runtime after `k` failed starts of WSL in a row.
pub open spec fn start_failures(rt: RuntimeInner, k: nat, error: Option<String>, now: u64) -> RuntimeInner
    decreases k,
{
    if k == 0 {
        rt
    } else {
        after_start_failure(start_failures(rt, (k - 1) as nat, error, now), error, now)
    }
}

/// From a closed breaker with no failures, `k` failed starts in a row count `k` failures,
/// and the WSL circuit breaker is open exactly when `k` has reached the threshold of 10.
pub proof fn lemma_wsl_circuit_opens_at_threshold(rt: RuntimeInner, k: nat, error: Option<String>, now: u64)
    requires
        k < u32::MAX,
        rt.wsl_failures == 0,
        !rt.wsl_circuit_open,
    ensures
        start_failures(rt, k, error, now).wsl_failures == k,
        start_failures(rt, k, error, now).wsl_circuit_open <==> k >= CIRCUIT_THRESHOLD,
        !start_failures(rt, k, error, now).distro_running || k == 0,
    decreases k,
{
    if k > 0 {
        lemma_wsl_circuit_opens_at_threshold(rt, (k - 1) as nat, error, now);
    }
}

/// A reset requested by the user always gets past the WSL circuit breaker.
pub proof fn lemma_reset_reopens_start(
    rt: RuntimeInner,
    now: u64,
    ds: Seq<DistroModel>,
    distro: Seq<char>,
    locale: Locale,
)
    ensures
        start_check_spec(rt, true, now, ds, distro, locale).0 != StartCheck::CircuitOpen,
        start_check_spec(rt, true, now, ds, distro, locale).1.wsl_failures == 0,
        !start_check_spec(rt, true, now, ds, distro, locale).1.wsl_circuit_open,
{
}

/// The WSL circuit breaker closes by itself once half an hour has passed since it opened.
pub proof fn lemma_circuit_closes_after_reset_time(
    rt: RuntimeInner,
    now: u64,
    ds: Seq<DistroModel>,
    distro: Seq<char>,
    locale: Locale,
)
    requires
        rt.wsl_circuit_open,
        rt.wsl_circuit_opened_at matches Some(o) && elapsed_at_least(now, o, CIRCUIT_RESET_NANOS),
    ensures
        start_check_spec(rt, false, now, ds, distro, locale).0 != StartCheck::CircuitOpen,
        !start_check_spec(rt, false, now, ds, distro, locale).1.wsl_circuit_open,
{
}

/// How many times the partition is looked up after the mount task attached the disk.
pub const ATTACH_LOOKUPS: u32 = 8;

/// The pause between those lookups, in seconds.
pub const ATTACH_RETRY_SECS: u64 = 2;

/// How far an attempt to mount a rule's partition has got.
#[derive(Clone, Copy, Debug, PartialEq, Eq, Structural)]
pub enum AttachPhase {
    /// Nothing has been tried yet.
    Start,
    /// The mount task has run; `tries` lookups after it have failed.
    Attached { tries: u32 },
}

/// What a lookup of the partition inside WSL found.
#[derive(Clone, Copy, Debug, PartialEq, Eq, Structural)]
pub enum Lookup {
    /// The partition is there, mounted at the rule's mount point or not.
    Found { at_mount_point: bool },
    /// The partition is not there (the error is kept by the caller).
    Missing,
}

/// What to do next in a mount attempt.
#[derive(Clone, Copy, Debug, PartialEq, Eq, Structural)]
pub enum AttachAction {
    /// Done: the partition is mounted at its mount point.
    Done,
    /// Mount the partition that was found, then done.
    Mount,
    /// Run the elevated task that attaches the physical drive, then look up again.
    RunMountTask,
    /// Wait `ATTACH_RETRY_SECS`, then look up again.
    Retry,
    /// Give up with the last lookup error.
    GiveUp,
}

/// One step of a mount attempt: a found partition is mounted unless it already is; the
/// first miss runs the mount task; later misses retry until `ATTACH_LOOKUPS` lookups after
/// the task have failed.
pub open spec fn attach_step_spec(phase: AttachPhase, found: Lookup) -> (AttachPhase, AttachAction) {
    match found {
        Lookup::Found { at_mount_point } => (phase, if at_mount_point {
            AttachAction::Done
        } else {
            AttachAction::Mount
        }),
        Lookup::Missing => match phase {
            AttachPhase::Start => (AttachPhase::Attached { tries: 0 }, AttachAction::RunMountTask),
            AttachPhase::Attached { tries } => if tries + 1 < ATTACH_LOOKUPS {
                (AttachPhase::Attached { tries: (tries + 1) as u32 }, AttachAction::Retry)
            } else {
                (AttachPhase::Attached { tries: (tries + 1) as u32 }, AttachAction::GiveUp)
            },
        },
    }
}

/// The next step of a mount attempt after a lookup.
pub fn attach_step(phase: AttachPhase, found: Lookup) -> (r: (AttachPhase, AttachAction))
    requires
        phase matches AttachPhase::Attached { tries } ==> tries < ATTACH_LOOKUPS,
    ensures
        r == attach_step_spec(phase, found),
        r.0 matches AttachPhase::Attached { tries } ==> tries <= ATTACH_LOOKUPS,
{
    match found {
        Lookup::Found { at_mount_point } => (phase, if at_mount_point {
            AttachAction::Done
        } else {
            AttachAction::Mount
        }),
        Lookup::Missing => match phase {
            AttachPhase::Start => (AttachPhase::Attached { tries: 0 }, AttachAction::RunMountTask),
            AttachPhase::Attached { tries } => if tries + 1 < ATTACH_LOOKUPS {
                (AttachPhase::Attached { tries: tries + 1 }, AttachAction::Retry)
            } else {
                (AttachPhase::Attached { tries: tries + 1 }, AttachAction::GiveUp)
            },
        },
    }
}

/// The phase after `k` missed lookups in a row from the start.
pub open spec fn misses(k: nat) -> (AttachPhase, AttachAction)
    decreases k,
{
    if k == 0 {
        (AttachPhase::Start, AttachAction::RunMountTask)
    } else {
        attach_step_spec(misses((k - 1) as nat).0, Lookup::Missing)
    }
}

/// A mount attempt whose lookups keep missing runs the mount task once, retries, and gives
/// up exactly at the `ATTACH_LOOKUPS`-th lookup after the task.
pub proof fn lemma_attach_gives_up(k: nat)
    requires
        1 <= k <= ATTACH_LOOKUPS + 1,
    ensures
        k == 1 ==> misses(k).1 == AttachAction::RunMountTask,
        1 < k < ATTACH_LOOKUPS + 1 ==> misses(k).1 == AttachAction::Retry,
        k == ATTACH_LOOKUPS + 1 ==> misses(k).1 == AttachAction::GiveUp,
        misses(k).0 == (AttachPhase::Attached { tries: (k - 1) as u32 }),
    decreases k,
{
    assert(misses(0) == (AttachPhase::Start, AttachAction::RunMountTask));
    if k > 1 {
        lemma_attach_gives_up((k - 1) as nat);
    }
}

/// Whether the init command must run against a live session: one is configured and it
/// differs from the one last run there.
pub open spec fn init_rerun_spec(cfg: AppConfig, last_run: Option<Seq<char>>) -> bool {
    normalized_init_spec(cfg) matches Some(c) && last_run != Some(c)
}

/// Whether the (edited) init command must run against the live session.
pub fn init_rerun_needed(cfg: &AppConfig, last_run: &Option<String>) -> (r: bool)
    ensures
        r == init_rerun_spec(*cfg, match last_run {
            Some(s) => Some(s@),
            None => None,
        }),
{
    match normalized_init(cfg) {
        Some(c) => match last_run {
            Some(l) => !crate::text::str_eq(c.as_str(), l.as_str()),
            None => true,
        },
        None => false,
    }
}

/// A session that ends within this many nanoseconds of starting counts as a failed start.
pub const SHORT_LIVED_NANOS: u64 = 60_000_000_000;

/// What the WSL guardian does on one pass of its loop.
#[derive(Clone, Copy, Debug, PartialEq, Eq, Structural)]
pub enum WslPass {
    /// The guardian should not run: stop the session if there is one, then wait idle.
    Idle,
    /// The configured distro is no longer the session's: stop it, forget the init command
    /// that ran there, and start the configured one.
    Switch,
    /// The init command was edited: wait until the configuration settles, then decide again
    /// with `init_after_settle`, and watch the session.
    SettleThenRerun,
    /// Watch the live session; forget the last init command when none is configured.
    Watch { forget_init: bool },
    /// No session is running: start one if `ensure_can_start` allows.
    Start,
}

/// The decision of one pass at wall-clock time `now`, for the live session's distro (none
/// when no session runs) and the init command last run in it.
pub open spec fn wsl_pass_spec(
    cfg: AppConfig,
    now: i128,
    session: Option<Seq<char>>,
    init_run: Option<Seq<char>>,
) -> WslPass {
    if !should_run_spec(cfg, now) {
        WslPass::Idle
    } else {
        match session {
            None => WslPass::Start,
            Some(d) => if cfg.distro@ != d {
                WslPass::Switch
            } else if init_rerun_spec(cfg, init_run) {
                WslPass::SettleThenRerun
            } else {
                WslPass::Watch { forget_init: normalized_init_spec(cfg) is None }
            },
        }
    }
}

/// The text of an optional string.
pub open spec fn opt_view(s: Option<String>) -> Option<Seq<char>> {
    match s {
        Some(x) => Some(x@),
        None => None,
    }
}

/// Decides one pass of the WSL guardian at wall-clock time `now`.
pub fn wsl_pass(cfg: &AppConfig, now: i128, session: Option<&str>, init_run: &Option<String>) -> (r: WslPass)
    ensures
        r == wsl_pass_spec(*cfg, now, match session {
            Some(d) => Some(d@),
            None => None,
        }, opt_view(*init_run)),
{
    if !guardian_should_run_at(cfg, now) {
        return WslPass::Idle;
    }
    match session {
        None => WslPass::Start,
        Some(d) => {
            if !crate::text::str_eq(cfg.distro.as_str(), d) {
                WslPass::Switch
            } else if init_rerun_needed(cfg, init_run) {
                WslPass::SettleThenRerun
            } else {
                WslPass::Watch { forget_init: normalized_init(cfg).is_none() }
            }
        },
    }
}

/// After the configuration settled: the init command to run in the live session of
/// `session`, if the guardian should still run there and the command still differs from
/// the one last run.
pub fn init_after_settle(latest: &AppConfig, now: i128, session: &str, init_run: &Option<String>) -> (r: Option<String>)
    ensures
        match r {
            Some(c) => should_run_spec(*latest, now) && latest.distro@ == session@
                && normalized_init_spec(*latest) == Some(c@) && opt_view(*init_run) != Some(c@),
            None => !(should_run_spec(*latest, now) && latest.distro@ == session@ && init_rerun_spec(
                *latest,
                opt_view(*init_run),
            )),
        },
{
    if guardian_should_run_at(latest, now) && crate::text::str_eq(latest.distro.as_str(), session)
        && init_rerun_needed(latest, init_run) {
        normalized_init(latest)
    } else {
        None
    }
}

/// What follows the end of a keep-alive session.
#[derive(Clone, Copy, Debug, PartialEq, Eq, Structural)]
pub struct SessionEnd {
    /// Tell the user that WSL stopped (once per outage).
    pub notify_stopped: bool,
    /// Whether the user has been told of the outage, after this step.
    pub notified_down: bool,
    /// The session lived too short: record a failed start and wait before retrying.
    pub failed_start: bool,
}

/// What follows a session that lived `lived` nanoseconds, when the user was already told
/// of an outage (`notified_down`) or not: tell the user once per outage, and count a
/// session shorter than a minute as a failed start.
pub open spec fn session_end_spec(notified_down: bool, lived: u64) -> SessionEnd {
    SessionEnd { notify_stopped: !notified_down, notified_down: true, failed_start: lived < SHORT_LIVED_NANOS }
}

/// Handles the end of a keep-alive session that lived `lived` nanoseconds, at wall-clock
/// time `now`: WSL is marked stopped and the outage flag is set; the result says whether
/// to tell the user and whether the session counts as a failed start (the caller then
/// publishes the status and calls `record_start_failure`).
pub fn session_stopped(rt: &mut RuntimeInner, notified_down: &mut bool, lived: u64, now: i128) -> (r: SessionEnd)
    ensures
        stopped_from(*old(rt), *final(rt), now),
        r == session_end_spec(*old(notified_down), lived),
        *final(notified_down) == r.notified_down,
{
    mark_stopped(rt, now);
    let r = SessionEnd { notify_stopped: !*notified_down, notified_down: true, failed_start: lived < SHORT_LIVED_NANOS };
    *notified_down = true;
    r
}

/// When a keep-alive session ends, WSL is marked stopped with every disk unmounted; the user
/// is told exactly when not told before in this outage, and is then marked as told; and a
/// session that lived under a minute adds one failed start (below the counter's limit) and
/// stops WSL from counting as running.
pub proof fn lemma_session_end(
    before: RuntimeInner,
    after: RuntimeInner,
    notified_down: bool,
    lived: u64,
    now: i128,
    error: Option<String>,
    mono: u64,
)
    requires
        stopped_from(before, after, now),
        before.wsl_failures < u32::MAX,
    ensures
        !after.distro_running,
        after.running_since is None,
        forall|i: int| 0 <= i < after.disks@.len() ==> !(#[trigger] after.disks@[i]).state.mounted
            && after.disks@[i].state.device is None && after.disks@[i].state.next_retry is None,
        session_end_spec(notified_down, lived).notify_stopped <==> !notified_down,
        session_end_spec(notified_down, lived).notified_down,
        session_end_spec(notified_down, lived).failed_start <==> lived < 60_000_000_000,
        lived < 60_000_000_000 ==> after_start_failure(after, error, mono).wsl_failures == before.wsl_failures + 1,
        lived < 60_000_000_000 ==> !after_start_failure(after, error, mono).distro_running,
{
    assert forall|i: int| 0 <= i < after.disks@.len() implies !(#[trigger] after.disks@[i]).state.mounted
        && after.disks@[i].state.device is None && after.disks@[i].state.next_retry is None by {
        assert(after.disks@[i].state == stopped_disk(before.disks@[i].state));
    }
}

/// The indices of the enabled rules among the first `n`, in order.
pub open spec fn enabled_from(rules: Seq<DiskRule>, n: int) -> Seq<usize>
    decreases n,
{
    if n <= 0 {
        Seq::empty()
    } else {
        enabled_from(rules, n - 1) + if rules[n - 1].enabled {
            seq![(n - 1) as usize]
        } else {
            Seq::<usize>::empty()
        }
    }
}

/// Starts a pass of the disk guardian at wall-clock time `now`. When the guardian should
/// not run, nothing changes and no rule is checked. Otherwise the pending disk resets are
/// taken and their records start afresh; then, while the distro runs, the enabled rules
/// are checked in order: the result holds their indices.
pub fn begin_disk_pass(cfg: &AppConfig, now: i128, resets: &mut ResetFlags, rt: &mut RuntimeInner) -> (r: Vec<usize>)
    ensures
        !should_run_spec(*cfg, now) ==> *final(resets) == *old(resets) && *final(rt) == *old(rt) && r@.len() == 0,
        old(rt).wf() ==> final(rt).wf(),
        should_run_spec(*cfg, now) ==> {
            &&& final(resets).disks@.len() == 0
            &&& final(resets).wf()
            &&& final(resets).wsl == old(resets).wsl
            &&& *final(rt) == (RuntimeInner { disks: final(rt).disks, ..*old(rt) })
            &&& forall|id: Seq<char>| #[trigger] text_set(old(resets).disks@).contains(id)
                ==> lookup(final(rt).disks@, id) == Some(fresh_disk_runtime())
            &&& forall|id: Seq<char>| !text_set(old(resets).disks@).contains(id)
                ==> #[trigger] lookup(final(rt).disks@, id) == lookup(old(rt).disks@, id)
            &&& r@ == if old(rt).distro_running {
                enabled_from(cfg.disk_rules@, cfg.disk_rules@.len() as int)
            } else {
                Seq::<usize>::empty()
            }
        },
{
    if !guardian_should_run_at(cfg, now) {
        return Vec::new();
    }
    let ids = resets.take_disks();
    let ghost before = *rt;
    let mut i: usize = 0;
    while i < ids.len()
        invariant
            i <= ids.len(),
            *rt == (RuntimeInner { disks: rt.disks, ..before }),
            before.wf() ==> rt.wf(),
            forall|id: Seq<char>| (exists|k: int| 0 <= k < i && #[trigger] ids@[k]@ == id)
                ==> lookup(rt.disks@, id) == Some(fresh_disk_runtime()),
            forall|id: Seq<char>| !(exists|k: int| 0 <= k < i && #[trigger] ids@[k]@ == id)
                ==> #[trigger] lookup(rt.disks@, id) == lookup(before.disks@, id),
        decreases ids.len() - i,
    {
        let ghost mid = rt.disks@;
        rt.set_disk(ids[i].as_str(), DiskRuntime::default());
        proof {
            assert forall|id: Seq<char>| (exists|k: int| 0 <= k < i + 1 && #[trigger] ids@[k]@ == id)
                implies lookup(rt.disks@, id) == Some(fresh_disk_runtime()) by {
                if id != ids@[i as int]@ {
                    let k = choose|k: int| 0 <= k < i + 1 && #[trigger] ids@[k]@ == id;
                    assert(k < i);
                    assert(lookup(rt.disks@, id) == lookup(mid, id));
                }
            }
            assert forall|id: Seq<char>| !(exists|k: int| 0 <= k < i + 1 && #[trigger] ids@[k]@ == id)
                implies #[trigger] lookup(rt.disks@, id) == lookup(before.disks@, id) by {
                assert(id != ids@[i as int]@);
                assert(lookup(rt.disks@, id) == lookup(mid, id));
                assert(!(exists|k: int| 0 <= k < i && #[trigger] ids@[k]@ == id));
            }
        }
        i += 1;
    }
    let mut r: Vec<usize> = Vec::new();
    if !rt.distro_running {
        return r;
    }
    let mut j: usize = 0;
    while j < cfg.disk_rules.len()
        invariant
            j <= cfg.disk_rules.len(),
            r@ == enabled_from(cfg.disk_rules@, j as int),
        decreases cfg.disk_rules.len() - j,
    {
        if cfg.disk_rules[j].enabled {
            r.push(j);
        }
        j += 1;
    }
    r
}

/// What the disk guardian does with a rule after probing it.
#[derive(Clone, Copy, Debug, PartialEq, Eq, Structural)]
pub enum ProbeStep {
    /// The partition is mounted: the record says so; store it and move on.
    Mounted,
    /// The retry is not due yet: the record says unmounted; store it and move on.
    Pending,
    /// Attach and mount the partition (`attempt_mount`), then record the outcome.
    Attempt,
}

/// The step after a probe that found the partition `mounted` (from `device`, when known),
/// at wall-clock time `wall`, with the record to continue from.
pub open spec fn after_probe_spec(d: DiskRuntime, mounted: bool, device: Option<String>, wall: i128) -> (ProbeStep, DiskRuntime) {
    if mounted {
        (ProbeStep::Mounted, after_mounted(d, device))
    } else if retry_pending_spec(d, wall) {
        (ProbeStep::Pending, DiskRuntime { mounted: false, ..d })
    } else {
        (ProbeStep::Attempt, DiskRuntime {
            interval: if d.interval == 0 {
                FIRST_UNMOUNTED_INTERVAL_SECS
            } else {
                d.interval
            },
            ..d
        })
    }
}

/// Decides what follows a probe of a rule's partition, updating its record.
pub fn after_probe(d: &mut DiskRuntime, mounted: bool, device: Option<String>, wall: i128) -> (r: ProbeStep)
    ensures
        (r, *final(d)) == after_probe_spec(*old(d), mounted, device, wall),
{
    if mounted {
        record_mounted(d, device);
        return ProbeStep::Mounted;
    }
    if hold_for_retry(d, wall) {
        return ProbeStep::Pending;
    }
    prepare_attempt(d);
    ProbeStep::Attempt
}

/// The enabled rules among the first `n` are exactly those `enabled_from` lists.
proof fn lemma_enabled_from(rules: Seq<DiskRule>, n: int, i: int)
    requires
        0 <= i < n <= rules.len(),
        n <= usize::MAX,
    ensures
        enabled_from(rules, n).contains(i as usize) <==> rules[i].enabled,
    decreases n,
{
    lemma_enabled_below(rules, n);
    if i < n - 1 {
        lemma_enabled_from(rules, n - 1, i);
        if rules[n - 1].enabled {
            assert(enabled_from(rules, n) == enabled_from(rules, n - 1).push((n - 1) as usize));
        } else {
            assert(enabled_from(rules, n) == enabled_from(rules, n - 1));
        }
        if enabled_from(rules, n).contains(i as usize) {
            let k = choose|k: int| 0 <= k < enabled_from(rules, n).len() && #[trigger] enabled_from(rules, n)[k] == i as usize;
            if k < enabled_from(rules, n - 1).len() {
                assert(enabled_from(rules, n - 1)[k] == i as usize);
            }
        }
        if enabled_from(rules, n - 1).contains(i as usize) {
            let k = choose|k: int| 0 <= k < enabled_from(rules, n - 1).len() && #[trigger] enabled_from(rules, n - 1)[k] == i as usize;
            assert(enabled_from(rules, n)[k] == i as usize);
        }
    } else {
        lemma_enabled_below(rules, n - 1);
        if rules[n - 1].enabled {
            assert(enabled_from(rules, n)[enabled_from(rules, n - 1).len() as int] == (n - 1) as usize);
        } else {
            assert(enabled_from(rules, n) == enabled_from(rules, n - 1));
            if enabled_from(rules, n - 1).contains(i as usize) {
                let k = choose|k: int| 0 <= k < enabled_from(rules, n - 1).len() && #[trigger] enabled_from(rules, n - 1)[k] == i as usize;
                assert(enabled_from(rules, n - 1)[k] < n - 1);
            }
        }
    }
}

/// `enabled_from(rules, n)` lists indices below `n`.
proof fn lemma_enabled_below(rules: Seq<DiskRule>, n: int)
    requires
        0 <= n <= rules.len(),
        n <= usize::MAX,
    ensures
        forall|k: int| 0 <= k < enabled_from(rules, n).len() ==> (#[trigger] enabled_from(rules, n)[k] as int) < n,
    decreases n,
{
    if n > 0 {
        lemma_enabled_below(rules, n - 1);
        let prev = enabled_from(rules, n - 1);
        assert forall|k: int| 0 <= k < enabled_from(rules, n).len() implies (#[trigger] enabled_from(rules, n)[k] as int) < n by {
            if k < prev.len() {
                assert(enabled_from(rules, n)[k] == prev[k]);
            }
        }
    }
}

/// A disk pass never probes, attaches or mounts a disabled rule, nor a rule whose circuit
/// breaker still holds (its record is kept as it was); and it never attaches or mounts a
/// rule whose retry is not due yet, whose record is kept but for being unmounted.
pub proof fn lemma_disk_pass_skips(
    rules: Seq<DiskRule>,
    i: int,
    d: DiskRuntime,
    mono: u64,
    mounted: bool,
    device: Option<String>,
    wall: i128,
)
    requires
        0 <= i < rules.len() <= usize::MAX,
    ensures
        enabled_from(rules, rules.len() as int).contains(i as usize) <==> rules[i].enabled,
        d.circuit_open && !(d.circuit_opened_at matches Some(o) && elapsed_at_least(mono, o, CIRCUIT_RESET_NANOS))
            ==> gate_spec(d, mono).0 != DiskGate::Proceed && gate_spec(d, mono).1 == d,
        !d.circuit_open ==> gate_spec(d, mono) == (DiskGate::Proceed, d),
        !mounted && retry_pending_spec(d, wall) ==> after_probe_spec(d, mounted, device, wall) == (
            ProbeStep::Pending,
            DiskRuntime { mounted: false, ..d },
        ),
        after_probe_spec(d, mounted, device, wall).0 == ProbeStep::Attempt ==> !mounted && !retry_pending_spec(d, wall),
{
    lemma_enabled_from(rules, rules.len() as int, i);
}

} // verus!
