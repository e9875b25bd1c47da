//! The application's configuration: disk rules, pause state, defaults and validation.
use vstd::prelude::*;
use crate::bindings::{
    ascii_upper, is_lower_hex,
    mount_name_ok, new_uuid_text, now_nanos, in_utc_range, MIN_UTC_NANOS, MAX_UTC_NANOS, regex_is_match, to_uppercase, upper_text,
    uuid_text, uuid_v4_text,
};
use crate::i18n::{fill, placeholder, t, t_spec, tf, Locale};
use crate::text::{
    chars_of, decimal, is_ws, lemma_trim_idempotent, lemma_trim_solid, push_decimal, str_eq,
    string_of, trim, trimmed,
};

verus! {

/// A physical disk partition that the guardian keeps mounted inside WSL.
#[derive(Clone, Debug)]
pub struct DiskRule {
    pub id: String,
    pub disk_number: u32,
    pub friendly_name: String,
    pub partition: u32,
    pub fs_type: String,
    pub mount_name: String,
    pub enabled: bool,
}

/// The mathematical content of a disk rule.
pub struct RuleModel {
    pub id: Seq<char>,
    pub disk_number: u32,
    pub friendly_name: Seq<char>,
    pub partition: u32,
    pub fs_type: Seq<char>,
    pub mount_name: Seq<char>,
    pub enabled: bool,
}

impl View for DiskRule {
    type V = RuleModel;

    open spec fn view(&self) -> RuleModel {
        RuleModel {
            id: self.id@,
            disk_number: self.disk_number,
            friendly_name: self.friendly_name@,
            partition: self.partition,
            fs_type: self.fs_type@,
            mount_name: self.mount_name@,
            enabled: self.enabled,
        }
    }
}

/// The Windows device path of a physical drive: `\\.\PHYSICALDRIVE` and its number.
pub open spec fn drive_path(disk_number: u32) -> Seq<char> {
    "\\\\.\\PHYSICALDRIVE"@ + decimal(disk_number as nat)
}

/// Where a rule's partition is mounted inside WSL: `/mnt/wsl/` and the mount name.
pub open spec fn mount_point_of(mount_name: Seq<char>) -> Seq<char> {
    "/mnt/wsl/"@ + mount_name
}

impl DiskRule {
    /// The device path that `wsl --mount` attaches, such as `\\.\PHYSICALDRIVE2`.
    pub fn physical_drive_path(&self) -> (r: String)
        ensures
            r@ == drive_path(self.disk_number),
    {
        let mut v = chars_of("\\\\.\\PHYSICALDRIVE");
        push_decimal(&mut v, self.disk_number as u64);
        string_of(&v)
    }

    /// The mount point inside WSL, `/mnt/wsl/<mount_name>`.
    pub fn mount_point(&self) -> (r: String)
        ensures
            r@ == mount_point_of(self.mount_name@),
    {
        let mut s = String::from_str("/mnt/wsl/");
        s.append(self.mount_name.as_str());
        s
    }
}

/// A pause of the guardian that lasts until `until`, in nanoseconds since the Unix epoch.
#[derive(Clone, Copy, Debug)]
pub struct PauseState {
    pub until: i128,
}

/// One minute in nanoseconds.
pub const MINUTE_NANOS: i128 = 60_000_000_000;

/// How long a pause without an end lasts: 365 * 100 days, in nanoseconds.
pub const OPEN_PAUSE_NANOS: i128 = 3_153_600_000_000_000_000;

/// When a pause that starts at `now` ends: after `minutes`, or after 100 years.
pub open spec fn pause_end(now: int, minutes: Option<u32>) -> int {
    match minutes {
        Some(m) => now + m * 60_000_000_000,
        None => now + 36_500 * 86_400_000_000_000,
    }
}

/// Whether a pause can start at `now` for `minutes`: both ends are instants chrono can hold
/// (adding the length past chrono's last instant panics there).
pub open spec fn pause_fits_spec(now: int, minutes: Option<u32>) -> bool {
    in_utc_range(now) && pause_end(now, minutes) <= MAX_UTC_NANOS
}

/// Whether a pause can start at `now` for `minutes`.
pub fn pause_fits(now: i128, minutes: Option<u32>) -> (r: bool)
    ensures
        r == pause_fits_spec(now as int, minutes),
{
    if now < MIN_UTC_NANOS || now > MAX_UTC_NANOS {
        return false;
    }
    match minutes {
        Some(m) => now <= MAX_UTC_NANOS - (m as i128) * MINUTE_NANOS,
        None => now <= MAX_UTC_NANOS - OPEN_PAUSE_NANOS,
    }
}

/// Whether pause `p` is still running at `now` (nanoseconds since the epoch).
pub open spec fn pause_running(p: PauseState, now: i128) -> bool {
    now < p.until
}

impl PauseState {
    /// Whether the pause is still running at `now` (nanoseconds since the epoch).
    pub fn is_active_at(&self, now: i128) -> (r: bool)
        ensures
            r == (now < self.until),
    {
        now < self.until
    }

    /// Whether the pause is still running now, by the wall clock: what `is_active_at` says
    /// for the clock's reading, which is not before the epoch.
    pub fn is_active(&self) -> (r: bool)
        ensures
            exists|now: i128| now >= 0 && r == #[trigger] pause_running(*self, now),
    {
        let now = now_nanos();
        let r = self.is_active_at(now);
        assert(r == pause_running(*self, now));
        r
    }

    /// The pause that starts at `now` and lasts `minutes`, or 100 years when none is given.
    pub fn starting_at(now: i128, minutes: Option<u32>) -> (r: PauseState)
        requires
            pause_fits_spec(now as int, minutes),
        ensures
            r.until == pause_end(now as int, minutes),
    {
        match minutes {
            Some(m) => PauseState { until: now + (m as i128) * MINUTE_NANOS },
            None => PauseState { until: now + OPEN_PAUSE_NANOS },
        }
    }
}

/// The whole configuration of the application.
#[derive(Clone, Debug)]
pub struct AppConfig {
    pub schema_version: u32,
    pub autostart: bool,
    pub start_minimized: bool,
    pub distro: String,
    pub guardian_enabled: bool,
    pub init_command: Option<String>,
    pub pause_state: Option<PauseState>,
    pub disk_rules: Vec<DiskRule>,
    pub log_level: String,
    pub locale: String,
    pub theme: String,
}

/// The schema version that configurations are written with.
pub fn default_schema_version() -> (r: u32)
    ensures
        r == 1,
{
    1
}

/// The log level used when none is configured: `INFO`.
pub fn default_log_level() -> (r: String)
    ensures
        r@ == "INFO"@,
{
    String::from_str("INFO")
}

/// The locale preference used when none is configured: follow the system.
pub fn default_locale() -> (r: String)
    ensures
        r@ == "system"@,
{
    String::from_str("system")
}

/// The theme used when none is configured: follow the system.
pub fn default_theme() -> (r: String)
    ensures
        r@ == "system"@,
{
    String::from_str("system")
}

impl Default for AppConfig {
    fn default() -> (r: Self)
        ensures
            r.schema_version == 1,
            !r.autostart,
            !r.start_minimized,
            r.distro@ == Seq::<char>::empty(),
            !r.guardian_enabled,
            r.init_command is None,
            r.pause_state is None,
            r.disk_rules@.len() == 0,
            r.log_level@ == "INFO"@,
            r.locale@ == "system"@,
            r.theme@ == "system"@,
    {
        AppConfig {
            schema_version: 1,
            autostart: false,
            start_minimized: false,
            distro: String::new(),
            guardian_enabled: false,
            init_command: None,
            pause_state: None,
            disk_rules: Vec::new(),
            log_level: default_log_level(),
            locale: default_locale(),
            theme: default_theme(),
        }
    }
}

/// A locale preference after validation: `en`, `zh` and `system` stay, regional variants
/// become their language, anything else becomes `system`.
pub open spec fn normalize_locale(l: Seq<char>) -> Seq<char> {
    if l == "en"@ || l == "zh"@ || l == "system"@ {
        l
    } else if l == "zh-CN"@ || l == "zh-Hans"@ || l == "zh-TW"@ || l == "zh-Hant"@ {
        "zh"@
    } else if l == "en-US"@ || l == "en-GB"@ {
        "en"@
    } else {
        "system"@
    }
}

/// A theme after validation: `light`, `dark` and `system` stay, anything else becomes `system`.
pub open spec fn normalize_theme(t: Seq<char>) -> Seq<char> {
    if t == "light"@ || t == "dark"@ || t == "system"@ {
        t
    } else {
        "system"@
    }
}

/// Whether `l` is one of the log level names `TRACE`, `DEBUG`, `INFO`, `WARN`, `ERROR`.
pub open spec fn is_level_name(l: Seq<char>) -> bool {
    l == "TRACE"@ || l == "DEBUG"@ || l == "INFO"@ || l == "WARN"@ || l == "ERROR"@
}

/// A log level after validation: its upper-case form when that names a level, else `INFO`.
pub open spec fn normalize_level_text(l: Seq<char>) -> Seq<char> {
    if is_level_name(upper_text(l)) {
        upper_text(l)
    } else {
        "INFO"@
    }
}

/// Whether the guardian can mount a partition with this filesystem.
pub open spec fn allowed_fs(fs: Seq<char>) -> bool {
    fs == "ext4"@ || fs == "xfs"@ || fs == "btrfs"@
}

/// Why a disk rule is refused.
#[derive(Clone, Debug)]
pub enum ConfigError {
    PartitionMin,
    UnsupportedFs(String),
    MountName(String),
    DuplicateMount(String),
}

/// The mathematical content of a `ConfigError`.
pub enum RuleFault {
    PartitionMin,
    UnsupportedFs(Seq<char>),
    MountName(Seq<char>),
    DuplicateMount(Seq<char>),
}

impl View for ConfigError {
    type V = RuleFault;

    open spec fn view(&self) -> RuleFault {
        match self {
            ConfigError::PartitionMin => RuleFault::PartitionMin,
            ConfigError::UnsupportedFs(s) => RuleFault::UnsupportedFs(s@),
            ConfigError::MountName(s) => RuleFault::MountName(s@),
            ConfigError::DuplicateMount(s) => RuleFault::DuplicateMount(s@),
        }
    }
}

/// The message shown for a refused rule, in `locale`.
pub open spec fn fault_message(f: RuleFault, locale: Locale) -> Seq<char> {
    match f {
        RuleFault::PartitionMin => t_spec(locale, "error.partitionMin"@),
        RuleFault::UnsupportedFs(fs) => fill(
            t_spec(locale, "error.unsupportedFs"@),
            seq![("fs"@, fs)],
        ),
        RuleFault::MountName(n) => fill(t_spec(locale, "error.mountName"@), seq![("name"@, n)]),
        RuleFault::DuplicateMount(n) => fill(
            t_spec(locale, "error.duplicateMount"@),
            seq![("name"@, n)],
        ),
    }
}

impl ConfigError {
    /// The message for this error in `locale`.
    pub fn message(&self, locale: Locale) -> (r: String)
        ensures
            r@ == fault_message(self@, locale),
    {
        match self {
            ConfigError::PartitionMin => String::from_str(t(locale, "error.partitionMin")),
            ConfigError::UnsupportedFs(fs) => {
                let pairs: [(&str, &str); 1] = [("fs", fs.as_str())];
                let r = tf(locale, "error.unsupportedFs", &pairs);
                proof {
                    assert(crate::i18n::pair_views(pairs@) =~= seq![("fs"@, fs@)]);
                }
                r
            },
            ConfigError::MountName(n) => {
                let pairs: [(&str, &str); 1] = [("name", n.as_str())];
                let r = tf(locale, "error.mountName", &pairs);
                proof {
                    assert(crate::i18n::pair_views(pairs@) =~= seq![("name"@, n@)]);
                }
                r
            },
            ConfigError::DuplicateMount(n) => {
                let pairs: [(&str, &str); 1] = [("name", n.as_str())];
                let r = tf(locale, "error.duplicateMount", &pairs);
                proof {
                    assert(crate::i18n::pair_views(pairs@) =~= seq![("name"@, n@)]);
                }
                r
            },
        }
    }
}

/// The models of a list of rules.
pub open spec fn rule_models(rules: Seq<DiskRule>) -> Seq<RuleModel> {
    rules.map_values(|r: DiskRule| r@)
}

/// What refuses `r`, given the rules before it: partition 0, an unsupported filesystem,
/// a malformed mount name, or a mount name that an earlier rule already uses.
pub open spec fn rule_fault(r: RuleModel, earlier: Seq<RuleModel>) -> Option<RuleFault> {
    if r.partition == 0 {
        Some(RuleFault::PartitionMin)
    } else if !allowed_fs(r.fs_type) {
        Some(RuleFault::UnsupportedFs(r.fs_type))
    } else if !mount_name_ok(r.mount_name) {
        Some(RuleFault::MountName(r.mount_name))
    } else if exists|j: int| 0 <= j < earlier.len() && #[trigger] earlier[j].mount_name == r.mount_name {
        Some(RuleFault::DuplicateMount(r.mount_name))
    } else {
        None
    }
}

/// What refuses rule `i` of `rules`.
pub open spec fn fault_at(rules: Seq<RuleModel>, i: int) -> Option<RuleFault> {
    rule_fault(rules[i], rules.take(i))
}

/// Whether rules `0..n` are all accepted.
pub open spec fn accepted_through(rules: Seq<RuleModel>, n: int) -> bool {
    forall|i: int| 0 <= i < n ==> #[trigger] fault_at(rules, i) is None
}

/// Whether `new` is `old` with at most its id renewed: a blank id (after trimming) is
/// replaced by a fresh UUID, any other id is kept.
pub open spec fn id_refreshed(old: RuleModel, new: RuleModel) -> bool {
    &&& if trim(old.id).len() == 0 {
        uuid_v4_text(new.id)
    } else {
        new.id == old.id
    }
    &&& new.disk_number == old.disk_number
    &&& new.friendly_name == old.friendly_name
    &&& new.partition == old.partition
    &&& new.fs_type == old.fs_type
    &&& new.mount_name == old.mount_name
    &&& new.enabled == old.enabled
}

/// Whether the rule lists `old` and `new` agree, with ids renewed in rules `0..=last` and
/// untouched after.
pub open spec fn rules_processed(old: Seq<RuleModel>, new: Seq<RuleModel>, last: int) -> bool {
    &&& new.len() == old.len()
    &&& forall|i: int| 0 <= i < old.len() && i <= last ==> id_refreshed(#[trigger] old[i], new[i])
    &&& forall|i: int| 0 <= i < old.len() && i > last ==> #[trigger] new[i] == old[i]
}

/// Checks the rules in order, renewing blank ids, and stops at the first refused rule.
fn check_rules(rules: &mut Vec<DiskRule>) -> (r: Result<(), ConfigError>)
    ensures
        match r {
            Ok(()) => {
                &&& accepted_through(rule_models(old(rules)@), old(rules)@.len() as int)
                &&& rules_processed(
                    rule_models(old(rules)@),
                    rule_models(final(rules)@),
                    old(rules)@.len() as int,
                )
            },
            Err(e) => exists|k: int|
                0 <= k < old(rules)@.len() && accepted_through(rule_models(old(rules)@), k)
                    && fault_at(rule_models(old(rules)@), k) == Some(e@) && rules_processed(
                    rule_models(old(rules)@),
                    rule_models(final(rules)@),
                    k,
                ),
        },
{
    let ghost orig = rule_models(rules@);
    let n = rules.len();
    let mut i: usize = 0;
    while i < n
        invariant
            n == rules@.len() == orig.len(),
            i <= n,
            orig == rule_models(old(rules)@),
            accepted_through(orig, i as int),
            rules_processed(orig, rule_models(rules@), i - 1),
        decreases n - i,
    {
        let ghost before = rule_models(rules@);
        assert(before[i as int] == rules@[i as int]@);
        let blank = trimmed(rules[i].id.as_str()).as_str().is_empty();
        if blank {
            let fresh = new_uuid_text();
            let old_rule = &rules[i];
            let renewed = DiskRule {
                id: fresh,
                disk_number: old_rule.disk_number,
                friendly_name: old_rule.friendly_name.clone(),
                partition: old_rule.partition,
                fs_type: old_rule.fs_type.clone(),
                mount_name: old_rule.mount_name.clone(),
                enabled: old_rule.enabled,
            };
            assert(id_refreshed(orig[i as int], renewed@));
            rules.set(i, renewed);
            assert(rule_models(rules@) =~= before.update(i as int, renewed@));
        } else {
            assert(before[i as int] == orig[i as int]);
            assert(id_refreshed(orig[i as int], before[i as int]));
        }
        assert(rules_processed(orig, rule_models(rules@), i as int));
        let rule = &rules[i];
        assert(rule@ == rule_models(rules@)[i as int]);
        if rule.partition == 0 {
            assert(fault_at(orig, i as int) == Some(RuleFault::PartitionMin));
            return Err(ConfigError::PartitionMin);
        }
        let fs = rule.fs_type.as_str();
        if !(str_eq(fs, "ext4") || str_eq(fs, "xfs") || str_eq(fs, "btrfs")) {
            let e = ConfigError::UnsupportedFs(rule.fs_type.clone());
            assert(fault_at(orig, i as int) == Some(e@));
            return Err(e);
        }
        if !regex_is_match("^[A-Za-z0-9][A-Za-z0-9_-]{0,31}$", rule.mount_name.as_str()) {
            let e = ConfigError::MountName(rule.mount_name.clone());
            assert(fault_at(orig, i as int) == Some(e@));
            return Err(e);
        }
        let mut j: usize = 0;
        while j < i
            invariant
                j <= i < n == rules@.len() == orig.len(),
                rules_processed(orig, rule_models(rules@), i as int),
                orig == rule_models(old(rules)@),
                accepted_through(orig, i as int),
                orig[i as int].partition != 0,
                allowed_fs(orig[i as int].fs_type),
                mount_name_ok(orig[i as int].mount_name),
                forall|m: int| 0 <= m < j ==> orig[m].mount_name != orig[i as int].mount_name,
            decreases i - j,
        {
            assert(rule_models(rules@)[j as int] == rules@[j as int]@);
            assert(rule_models(rules@)[i as int] == rules@[i as int]@);
            if str_eq(rules[j].mount_name.as_str(), rules[i].mount_name.as_str()) {
                let e = ConfigError::DuplicateMount(rules[i].mount_name.clone());
                assert(orig.take(i as int)[j as int].mount_name == orig[i as int].mount_name);
                assert(fault_at(orig, i as int) == Some(e@));
                return Err(e);
            }
            j += 1;
        }
        assert(fault_at(orig, i as int) is None) by {
            assert forall|m: int| 0 <= m < i implies #[trigger] orig.take(i as int)[m].mount_name
                != orig[i as int].mount_name by {
                assert(orig.take(i as int)[m] == orig[m]);
            }
        }
        i += 1;
    }
    Ok(())
}

/// The fields that validation normalises before it looks at the rules, and those it keeps.
pub open spec fn normalized_fields(old: AppConfig, new: AppConfig) -> bool {
    &&& new.schema_version == 1
    &&& new.distro@ == trim(old.distro@)
    &&& new.locale@ == normalize_locale(old.locale@)
    &&& new.theme@ == normalize_theme(old.theme@)
    &&& new.autostart == old.autostart
    &&& new.start_minimized == old.start_minimized
    &&& new.guardian_enabled == old.guardian_enabled
    &&& new.init_command == old.init_command
    &&& new.pause_state == old.pause_state
}

/// Whether `new` is what a successful validation makes of `old`: every rule accepted (blank
/// ids renewed) and the log level normalised.
pub open spec fn validated(old: AppConfig, new: AppConfig) -> bool {
    &&& normalized_fields(old, new)
    &&& accepted_through(rule_models(old.disk_rules@), old.disk_rules@.len() as int)
    &&& rules_processed(
        rule_models(old.disk_rules@),
        rule_models(new.disk_rules@),
        old.disk_rules@.len() as int,
    )
    &&& new.log_level@ == normalize_level_text(old.log_level@)
}

/// Whether `new` is what a validation that refuses a rule with `fault` makes of `old`: the
/// first refused rule has that fault, ids are renewed up to it, the log level is untouched.
pub open spec fn refused(old: AppConfig, new: AppConfig, fault: RuleFault) -> bool {
    &&& normalized_fields(old, new)
    &&& exists|k: int|
        0 <= k < old.disk_rules@.len() && accepted_through(rule_models(old.disk_rules@), k)
            && fault_at(rule_models(old.disk_rules@), k) == Some(fault) && rules_processed(
            rule_models(old.disk_rules@),
            rule_models(new.disk_rules@),
            k,
        )
    &&& new.log_level@ == old.log_level@
}

impl AppConfig {
    /// Normalises the configuration and checks its disk rules.
    ///
    /// The schema version becomes 1, the distro name is trimmed, the locale and theme are
    /// normalised; then the rules are checked in order (blank ids renewed), stopping at the
    /// first refused rule; only when all pass is the log level normalised.
    pub fn validate(&mut self) -> (r: Result<(), ConfigError>)
        ensures
            match r {
                Ok(()) => validated(*old(self), *final(self)),
                Err(e) => refused(*old(self), *final(self), e@),
            },
    {
        self.schema_version = 1;
        self.distro = trimmed(self.distro.as_str());
        let l = self.locale.as_str();
        if str_eq(l, "en") || str_eq(l, "zh") || str_eq(l, "system") {
        } else if str_eq(l, "zh-CN") || str_eq(l, "zh-Hans") || str_eq(l, "zh-TW") || str_eq(
            l,
            "zh-Hant",
        ) {
            self.locale = String::from_str("zh");
        } else if str_eq(l, "en-US") || str_eq(l, "en-GB") {
            self.locale = String::from_str("en");
        } else {
            self.locale = default_locale();
        }
        let th = self.theme.as_str();
        if !(str_eq(th, "light") || str_eq(th, "dark") || str_eq(th, "system")) {
            self.theme = default_theme();
        }
        match check_rules(&mut self.disk_rules) {
            Ok(()) => {},
            Err(e) => {
                return Err(e);
            },
        }
        let upper = to_uppercase(self.log_level.as_str());
        let u = upper.as_str();
        if str_eq(u, "TRACE") || str_eq(u, "DEBUG") || str_eq(u, "INFO") || str_eq(u, "WARN")
            || str_eq(u, "ERROR") {
            self.log_level = upper;
        } else {
            self.log_level = String::from_str("INFO");
        }
        Ok(())
    }

    /// Ends any pause and switches the guardian on.
    pub fn resume(&mut self)
        ensures
            *final(self) == (AppConfig { pause_state: None, guardian_enabled: true, ..*old(self) }),
    {
        self.pause_state = None;
        self.guardian_enabled = true;
    }

    /// Pauses the guardian from `now` for `minutes`, or for 100 years when none is given.
    pub fn pause_at(&mut self, now: i128, minutes: Option<u32>)
        requires
            pause_fits_spec(now as int, minutes),
        ensures
            *final(self) == (AppConfig {
                pause_state: Some(PauseState { until: pause_end(now as int, minutes) as i128 }),
                ..*old(self)
            }),
    {
        self.pause_state = Some(PauseState::starting_at(now, minutes));
    }

    /// Drops a pause that has ended by `now`.
    pub fn clear_expired_pause_at(&mut self, now: i128)
        ensures
            *final(self) == (AppConfig {
                pause_state: unexpired_pause(old(self).pause_state, now),
                ..*old(self)
            }),
    {
        match self.pause_state {
            Some(p) => {
                if !p.is_active_at(now) {
                    self.pause_state = None;
                }
            },
            None => {},
        }
    }

    /// Drops a pause that has ended, by the wall clock: what `clear_expired_pause_at` does
    /// for the clock's reading, which is not before the epoch.
    pub fn clear_expired_pause(&mut self)
        ensures
            exists|now: i128|
                now >= 0 && *final(self) == (AppConfig {
                    pause_state: #[trigger] unexpired_pause(old(self).pause_state, now),
                    ..*old(self)
                }),
    {
        let now = now_nanos();
        self.clear_expired_pause_at(now);
    }
}

/// A pause that is still running at `now`; none once it has ended.
pub open spec fn unexpired_pause(p: Option<PauseState>, now: i128) -> Option<PauseState> {
    match p {
        Some(q) => if now < q.until {
            Some(q)
        } else {
            None
        },
        None => None,
    }
}

/// What saving a new configuration changes outside it: the autostart entry when the setting
/// changed, and whether the elevated mount task must exist.
pub struct SaveEffects {
    /// `Some(on)` when autostart must be switched on or off.
    pub autostart: Option<bool>,
    /// Whether some disk rule is enabled, so the mount task must exist; otherwise it is removed.
    pub need_mount_task: bool,
}

/// Whether some disk rule of `cfg` is enabled.
pub open spec fn any_enabled(cfg: AppConfig) -> bool {
    exists|i: int| 0 <= i < cfg.disk_rules@.len() && (#[trigger] cfg.disk_rules@[i]).enabled
}

/// What replacing `prev` by `next` requires outside the configuration.
pub fn save_effects(prev: &AppConfig, next: &AppConfig) -> (r: SaveEffects)
    ensures
        r.autostart == (if prev.autostart != next.autostart {
            Some(next.autostart)
        } else {
            None
        }),
        r.need_mount_task == any_enabled(*next),
{
    let mut any = false;
    let mut i: usize = 0;
    while i < next.disk_rules.len()
        invariant
            i <= next.disk_rules.len(),
            any == exists|k: int| 0 <= k < i && (#[trigger] next.disk_rules@[k]).enabled,
        decreases next.disk_rules.len() - i,
    {
        if next.disk_rules[i].enabled {
            any = true;
        }
        i += 1;
    }
    SaveEffects {
        autostart: if prev.autostart != next.autostart {
            Some(next.autostart)
        } else {
            None
        },
        need_mount_task: any,
    }
}

/// Rules that agree in everything but their ids are refused for the same reasons.
proof fn lemma_faults_ignore_ids(a: Seq<RuleModel>, b: Seq<RuleModel>)
    requires
        a.len() == b.len(),
        forall|i: int|
            0 <= i < a.len() ==> (#[trigger] a[i]).partition == b[i].partition && a[i].fs_type
                == b[i].fs_type && a[i].mount_name == b[i].mount_name,
    ensures
        forall|i: int| 0 <= i < a.len() ==> #[trigger] fault_at(a, i) == fault_at(b, i),
{
    assert forall|i: int| 0 <= i < a.len() implies #[trigger] fault_at(a, i) == fault_at(b, i) by {
        let ea = a.take(i);
        let eb = b.take(i);
        assert(a[i].partition == b[i].partition);
        assert forall|j: int| 0 <= j < i implies #[trigger] ea[j].mount_name == eb[j].mount_name by {
            assert(ea[j] == a[j]);
            assert(eb[j] == b[j]);
        }
        if exists|j: int| 0 <= j < ea.len() && #[trigger] ea[j].mount_name == a[i].mount_name {
            let j = choose|j: int| 0 <= j < ea.len() && #[trigger] ea[j].mount_name == a[i].mount_name;
            assert(eb[j].mount_name == b[i].mount_name);
        }
        if exists|j: int| 0 <= j < eb.len() && #[trigger] eb[j].mount_name == b[i].mount_name {
            let j = choose|j: int| 0 <= j < eb.len() && #[trigger] eb[j].mount_name == b[i].mount_name;
            assert(ea[j].mount_name == a[i].mount_name);
        }
    }
}

/// A UUID text contains no whitespace, so it is not blank.
proof fn lemma_uuid_not_blank(s: Seq<char>)
    requires
        uuid_text(s),
    ensures
        trim(s) == s,
        trim(s).len() > 0,
{
    assert forall|k: int| 0 <= k < s.len() implies !is_ws(#[trigger] s[k]) by {
        if k == 8 || k == 13 || k == 18 || k == 23 {
            assert(s[k] == '-');
        } else {
            assert(is_lower_hex(s[k]));
        }
    }
    lemma_trim_solid(s);
}

/// Validating a configuration that has just been validated succeeds and changes nothing:
/// validation is idempotent.
pub proof fn lemma_validate_idempotent(c0: AppConfig, c1: AppConfig, c2: AppConfig, second: Option<RuleFault>)
    requires
        validated(c0, c1),
        match second {
            None => validated(c1, c2),
            Some(f) => refused(c1, c2, f),
        },
    ensures
        second is None,
        c2.schema_version == c1.schema_version,
        c2.distro@ == c1.distro@,
        c2.locale@ == c1.locale@,
        c2.theme@ == c1.theme@,
        c2.log_level@ == c1.log_level@,
        rule_models(c2.disk_rules@) == rule_models(c1.disk_rules@),
{
    let m0 = rule_models(c0.disk_rules@);
    let m1 = rule_models(c1.disk_rules@);
    let m2 = rule_models(c2.disk_rules@);
    lemma_faults_ignore_ids(m0, m1);
    assert(accepted_through(m1, m1.len() as int)) by {
        assert forall|i: int| 0 <= i < m1.len() implies #[trigger] fault_at(m1, i) is None by {
            assert(fault_at(m0, i) is None);
        }
    }
    match second {
        Some(f) => {
            let k = choose|k: int|
                0 <= k < c1.disk_rules@.len() && accepted_through(m1, k) && fault_at(m1, k) == Some(f)
                    && rules_processed(m1, m2, k);
            assert(fault_at(m1, k) is None);
        },
        None => {},
    }
    lemma_trim_idempotent(c0.distro@);
    assert forall|i: int| 0 <= i < m1.len() implies trim((#[trigger] m1[i]).id).len() > 0 by {
        assert(id_refreshed(m0[i], m1[i]));
        if trim(m0[i].id).len() == 0 {
            lemma_uuid_not_blank(m1[i].id);
        }
    }
    assert forall|i: int| 0 <= i < m1.len() implies #[trigger] m2[i] == m1[i] by {
        assert(id_refreshed(m1[i], m2[i]));
    }
    assert(m2 =~= m1);
    let l0 = c0.log_level@;
    let l1 = c1.log_level@;
    reveal_strlit("TRACE");
    reveal_strlit("DEBUG");
    reveal_strlit("INFO");
    reveal_strlit("WARN");
    reveal_strlit("ERROR");
    assert(is_level_name(l1));
    assert(upper_text(l1) == l1) by {
        assert(vstd::utf8::is_ascii_chars(l1));
        assert(ascii_upper(l1) =~= l1);
    }
}


/// A validation that succeeds has accepted only rules with a partition number of at least
/// 1, a supported filesystem (ext4, xfs or btrfs), a well-formed mount name, and mount
/// names that no two rules share, wherever they stand.
pub proof fn lemma_validated_rules_sound(old: AppConfig, new: AppConfig)
    requires
        validated(old, new),
    ensures
        forall|i: int, j: int|
            0 <= i < j < old.disk_rules@.len() ==> #[trigger] old.disk_rules@[i].mount_name@
                != #[trigger] old.disk_rules@[j].mount_name@,
        forall|i: int|
            0 <= i < old.disk_rules@.len() ==> {
                let r = #[trigger] old.disk_rules@[i];
                &&& r.partition >= 1
                &&& (r.fs_type@ == "ext4"@ || r.fs_type@ == "xfs"@ || r.fs_type@ == "btrfs"@)
                &&& mount_name_ok(r.mount_name@)
            },
{
    let rm = rule_models(old.disk_rules@);
    assert forall|i: int, j: int|
        0 <= i < j < old.disk_rules@.len() implies #[trigger] old.disk_rules@[i].mount_name@
            != #[trigger] old.disk_rules@[j].mount_name@ by {
        assert(fault_at(rm, j) is None);
        assert(rm.take(j)[i] == rm[i]);
        assert(rm[i] == old.disk_rules@[i]@);
        assert(rm[j] == old.disk_rules@[j]@);
    }
    assert forall|i: int| 0 <= i < old.disk_rules@.len() implies {
        let r = #[trigger] old.disk_rules@[i];
        &&& r.partition >= 1
        &&& (r.fs_type@ == "ext4"@ || r.fs_type@ == "xfs"@ || r.fs_type@ == "btrfs"@)
        &&& mount_name_ok(r.mount_name@)
    } by {
        assert(fault_at(rm, i) is None);
        assert(rm[i] == old.disk_rules@[i]@);
    }
}

/// When the rules before rule `j` pass every check, and rule `j` passes every check but
/// uses the mount name of an earlier rule `i`, validation refuses rule `j` as a duplicate
/// mount of that name.
pub proof fn lemma_duplicate_mount_refused(old: AppConfig, new: AppConfig, f: RuleFault, i: int, j: int)
    requires
        refused(old, new, f),
        0 <= i < j < old.disk_rules@.len(),
        old.disk_rules@[i].mount_name@ == old.disk_rules@[j].mount_name@,
        forall|k: int|
            0 <= k <= j ==> {
                let r = #[trigger] old.disk_rules@[k];
                &&& r.partition >= 1
                &&& (r.fs_type@ == "ext4"@ || r.fs_type@ == "xfs"@ || r.fs_type@ == "btrfs"@)
                &&& mount_name_ok(r.mount_name@)
            },
        forall|a: int, b: int|
            0 <= a < b < j ==> #[trigger] old.disk_rules@[a].mount_name@ != #[trigger] old.disk_rules@[b].mount_name@,
    ensures
        f == RuleFault::DuplicateMount(old.disk_rules@[j].mount_name@),
{
    let rm = rule_models(old.disk_rules@);
    assert forall|m: int| 0 <= m < j implies #[trigger] fault_at(rm, m) is None by {
        assert(rm[m] == old.disk_rules@[m]@);
        assert(old.disk_rules@[m].partition >= 1);
        assert forall|a: int| 0 <= a < m implies #[trigger] rm.take(m)[a].mount_name != rm[m].mount_name by {
            assert(rm.take(m)[a] == rm[a]);
            assert(rm[a] == old.disk_rules@[a]@);
            assert(old.disk_rules@[a].mount_name@ != old.disk_rules@[m].mount_name@);
        }
    }
    assert(rm[j] == old.disk_rules@[j]@);
    assert(rm[i] == old.disk_rules@[i]@);
    assert(old.disk_rules@[j].partition >= 1);
    assert(rm.take(j)[i] == rm[i]);
    assert(fault_at(rm, j) == Some(RuleFault::DuplicateMount(rm[j].mount_name)));
    let k = choose|k: int|
        0 <= k < old.disk_rules@.len() && accepted_through(rm, k) && fault_at(rm, k) == Some(f)
            && rules_processed(rm, rule_models(new.disk_rules@), k);
    if k < j {
        assert(fault_at(rm, k) is None);
    } else if k > j {
        assert(fault_at(rm, j) is None);
    }
}

} // verus!
