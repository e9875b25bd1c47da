//! Physical disks and their partitions: inventory records, lsblk matching, mount commands.
use vstd::prelude::*;
use crate::config::{mount_point_of, DiskRule};
use crate::text::{
    append_chars, ascii_lower, chars_contain, chars_eq, chars_of, chars_start_with, contains,
    eq_ignore_ascii_case, is_whitespace, lower_chars, parse_u32, parse_u32_chars, replace_all,
    replace_chars, split_chars, split_on, starts_with, string_of, string_of_range, trim,
    trim_bounds, trimmed, views,
};

verus! {

/// One partition of a physical disk.
#[derive(Clone, Debug)]
pub struct PartitionInfo {
    pub number: u32,
    pub size: u64,
    pub partition_type: String,
    pub drive_letter: Option<String>,
}

/// A physical disk as Windows reports it.
#[derive(Clone, Debug)]
pub struct DiskInfo {
    pub number: u32,
    pub friendly_name: String,
    pub size: u64,
    pub partition_style: String,
    pub health_status: String,
    pub operational_status: String,
    pub serial: Option<String>,
    pub partitions: Vec<PartitionInfo>,
}

/// A partition as `Get-Partition` reports it, before defaults are applied.
#[derive(Clone, Debug)]
pub struct PartitionRecord {
    pub number: u32,
    pub size: u64,
    pub partition_type: Option<String>,
    pub drive_letter: Option<String>,
}

/// A disk as `Get-Disk` reports it, before defaults are applied.
#[derive(Clone, Debug)]
pub struct DiskRecord {
    pub number: u32,
    pub friendly_name: Option<String>,
    pub size: u64,
    pub partition_style: Option<String>,
    pub health_status: Option<String>,
    pub operational_status: Option<String>,
    pub serial_number: Option<String>,
    pub partitions: Vec<PartitionRecord>,
}

/// A reported text, or `fallback` when it is missing or empty.
pub open spec fn text_or(v: Option<String>, fallback: Seq<char>) -> Seq<char> {
    match v {
        Some(s) => if s@.len() > 0 {
            s@
        } else {
            fallback
        },
        None => fallback,
    }
}

/// A reported text, or `fallback` when it is missing or empty.
fn json_string(v: &Option<String>, fallback: &str) -> (r: String)
    ensures
        r@ == text_or(*v, fallback@),
{
    match v {
        Some(s) => if s.as_str().is_empty() {
            String::from_str(fallback)
        } else {
            s.clone()
        },
        None => String::from_str(fallback),
    }
}

/// A disk's serial number: trimmed, and missing when nothing is left.
pub open spec fn serial_of(v: Option<String>) -> Option<Seq<char>> {
    match v {
        Some(s) => if trim(s@).len() > 0 {
            Some(trim(s@))
        } else {
            None
        },
        None => None,
    }
}

/// Whether `p` is the partition that `rec` reports, with `Unknown` for a missing type.
pub open spec fn partition_from(rec: PartitionRecord, p: PartitionInfo) -> bool {
    &&& p.number == rec.number
    &&& p.size == rec.size
    &&& p.partition_type@ == text_or(rec.partition_type, "Unknown"@)
    &&& p.drive_letter == rec.drive_letter
}

/// Whether `d` is the disk that `rec` reports: missing or empty texts become `Unknown`, the
/// serial number is trimmed and dropped when empty.
pub open spec fn disk_from(rec: DiskRecord, d: DiskInfo) -> bool {
    &&& d.number == rec.number
    &&& d.friendly_name@ == text_or(rec.friendly_name, "Unknown"@)
    &&& d.size == rec.size
    &&& d.partition_style@ == text_or(rec.partition_style, "Unknown"@)
    &&& d.health_status@ == text_or(rec.health_status, "Unknown"@)
    &&& d.operational_status@ == text_or(rec.operational_status, "Unknown"@)
    &&& match (d.serial, serial_of(rec.serial_number)) {
        (Some(a), Some(b)) => a@ == b,
        (None, None) => true,
        _ => false,
    }
    &&& d.partitions@.len() == rec.partitions@.len()
    &&& forall|i: int| 0 <= i < d.partitions@.len() ==> partition_from(#[trigger] rec.partitions@[i], d.partitions@[i])
}

/// Turns a reported disk into a `DiskInfo`, applying the defaults.
pub fn parse_disk_info(rec: &DiskRecord) -> (r: DiskInfo)
    ensures
        disk_from(*rec, r),
{
    let mut partitions: Vec<PartitionInfo> = Vec::new();
    let mut i: usize = 0;
    while i < rec.partitions.len()
        invariant
            i <= rec.partitions.len(),
            partitions@.len() == i,
            forall|k: int| 0 <= k < i ==> partition_from(#[trigger] rec.partitions@[k], partitions@[k]),
        decreases rec.partitions.len() - i,
    {
        let p = &rec.partitions[i];
        let drive_letter = match &p.drive_letter {
            Some(s) => Some(s.clone()),
            None => None,
        };
        partitions.push(PartitionInfo {
            number: p.number,
            size: p.size,
            partition_type: json_string(&p.partition_type, "Unknown"),
            drive_letter,
        });
        i += 1;
    }
    let serial = match &rec.serial_number {
        Some(s) => {
            let t = trimmed(s.as_str());
            if t.as_str().is_empty() {
                None
            } else {
                Some(t)
            }
        },
        None => None,
    };
    DiskInfo {
        number: rec.number,
        friendly_name: json_string(&rec.friendly_name, "Unknown"),
        size: rec.size,
        partition_style: json_string(&rec.partition_style, "Unknown"),
        health_status: json_string(&rec.health_status, "Unknown"),
        operational_status: json_string(&rec.operational_status, "Unknown"),
        serial,
        partitions,
    }
}

/// Whether a partition is mounted inside WSL, and from which device.
#[derive(Clone, Debug)]
pub struct PartitionProbe {
    pub mounted: bool,
    pub device: Option<String>,
}

impl Default for PartitionProbe {
    fn default() -> (r: Self)
        ensures
            !r.mounted,
            r.device is None,
    {
        PartitionProbe { mounted: false, device: None }
    }
}

/// A partition found inside WSL: its device and where it is mounted.
#[derive(Clone, Debug)]
pub struct PartitionPresence {
    pub device: String,
    pub mountpoints: Vec<String>,
}

/// `s` without its trailing `/` characters.
pub open spec fn strip_slashes(s: Seq<char>) -> Seq<char>
    decreases s.len(),
{
    if s.len() > 0 && s.last() == '/' {
        strip_slashes(s.drop_last())
    } else {
        s
    }
}

/// `v` without its trailing `/` characters.
fn strip_trailing_slashes(v: &Vec<char>) -> (r: Vec<char>)
    ensures
        r@ == strip_slashes(v@),
{
    let mut j = v.len();
    assert(v@.take(j as int) =~= v@);
    while j > 0 && v[j - 1] == '/'
        invariant
            j <= v.len(),
            strip_slashes(v@.take(j as int)) == strip_slashes(v@),
        decreases j,
    {
        assert(v@.take(j as int).drop_last() =~= v@.take(j - 1));
        j -= 1;
    }
    assert(strip_slashes(v@.take(j as int)) == v@.take(j as int));
    let mut r: Vec<char> = Vec::new();
    let mut k: usize = 0;
    while k < j
        invariant
            k <= j <= v.len(),
            r@ == v@.take(k as int),
        decreases j - k,
    {
        r.push(v[k]);
        assert(v@.take(k + 1) =~= v@.take(k as int).push(v@[k as int]));
        k += 1;
    }
    r
}

/// Whether two paths name the same directory, ignoring trailing slashes.
pub open spec fn same_path(a: Seq<char>, b: Seq<char>) -> bool {
    strip_slashes(a) == strip_slashes(b)
}

/// Whether two paths are equal once trailing slashes are removed.
pub fn paths_equal(a: &str, b: &str) -> (r: bool)
    ensures
        r == same_path(a@, b@),
{
    let x = strip_trailing_slashes(&chars_of(a));
    let y = strip_trailing_slashes(&chars_of(b));
    chars_eq(&x, &y)
}

impl PartitionPresence {
    /// Whether the partition is mounted at `path`.
    pub fn mounted_at(&self, path: &str) -> (r: bool)
        ensures
            r == exists|i: int| 0 <= i < self.mountpoints@.len() && same_path(#[trigger] self.mountpoints@[i]@, path@),
    {
        let mut i: usize = 0;
        while i < self.mountpoints.len()
            invariant
                i <= self.mountpoints.len(),
                forall|k: int| 0 <= k < i ==> !same_path(#[trigger] self.mountpoints@[k]@, path@),
            decreases self.mountpoints.len() - i,
        {
            if paths_equal(self.mountpoints[i].as_str(), path) {
                return true;
            }
            i += 1;
        }
        false
    }
}

/// `s` made safe inside single quotes of a POSIX shell: each `'` becomes `'\''`.
pub open spec fn shell_escape(s: Seq<char>) -> Seq<char> {
    replace_all(s, seq!['\''], "'\\''"@)
}

/// Escapes `s` for use inside single quotes of a POSIX shell.
pub fn shell_quote_inner(s: &str) -> (r: Vec<char>)
    ensures
        r@ == shell_escape(s@),
{
    let mut pat: Vec<char> = Vec::new();
    pat.push('\'');
    assert(pat@ =~= seq!['\'']);
    replace_chars(&chars_of(s), &pat, &chars_of("'\\''"))
}

/// The shell command that mounts `device` at the rule's mount point:
/// `mkdir -p '<mp>' && mount -t <fs> '<device>' '<mp>'`.
pub open spec fn mount_command_spec(mount_name: Seq<char>, fs: Seq<char>, device: Seq<char>) -> Seq<char> {
    let mp = shell_escape(mount_point_of(mount_name));
    "mkdir -p '"@ + mp + "' && mount -t "@ + fs + " '"@ + shell_escape(device) + "' '"@ + mp + "'"@
}

/// The command that creates the mount point and mounts `device` there.
pub fn mount_command(rule: &DiskRule, device: &str) -> (r: String)
    ensures
        r@ == mount_command_spec(rule.mount_name@, rule.fs_type@, device@),
{
    let mp = shell_quote_inner(rule.mount_point().as_str());
    let mut out = chars_of("mkdir -p '");
    append_chars(&mut out, &mp);
    append_chars(&mut out, &chars_of("' && mount -t "));
    append_chars(&mut out, &chars_of(rule.fs_type.as_str()));
    append_chars(&mut out, &chars_of(" '"));
    append_chars(&mut out, &shell_quote_inner(device));
    append_chars(&mut out, &chars_of("' '"));
    append_chars(&mut out, &mp);
    append_chars(&mut out, &chars_of("'"));
    assert(out@ =~= mount_command_spec(rule.mount_name@, rule.fs_type@, device@));
    string_of(&out)
}

/// Whether a failed mount reports that the partition is already mounted at `mount_point`:
/// the message says "already mounted" (in any ASCII case) and names `on <mount_point>`.
pub open spec fn already_mounted_spec(err: Seq<char>, mount_point: Seq<char>) -> bool {
    contains(ascii_lower(err), "already mounted"@) && contains(err, "on "@ + mount_point)
}

/// Whether the error of a mount command means the partition is already where it belongs.
pub fn already_mounted_error(err: &str, mount_point: &str) -> (r: bool)
    ensures
        r == already_mounted_spec(err@, mount_point@),
{
    let e = chars_of(err);
    let lower = lower_chars(&e);
    if !chars_contain(&lower, &chars_of("already mounted")) {
        return false;
    }
    let mut needle = chars_of("on ");
    append_chars(&mut needle, &chars_of(mount_point));
    chars_contain(&e, &needle)
}

/// The outcome of running the mount command for a partition at `mount_point`: `error` is
/// what the command reported when it failed. A failure saying that the partition is
/// already mounted there counts as success.
pub fn mount_outcome(error: Option<String>, mount_point: &str) -> (r: Result<(), String>)
    ensures
        match error {
            None => r is Ok,
            Some(e) => if already_mounted_spec(e@, mount_point@) {
                r is Ok
            } else {
                r == Err::<(), String>(e)
            },
        },
{
    match error {
        None => Ok(()),
        Some(e) => {
            if already_mounted_error(e.as_str(), mount_point) {
                Ok(())
            } else {
                Err(e)
            }
        },
    }
}

/// Whether `c` is an ASCII digit.
pub open spec fn is_digit(c: char) -> bool {
    '0' <= c && c <= '9'
}

/// The ASCII digits at the end of `s`.
pub open spec fn trailing_digits(s: Seq<char>) -> Seq<char>
    decreases s.len(),
{
    if s.len() > 0 && is_digit(s.last()) {
        trailing_digits(s.drop_last()).push(s.last())
    } else {
        Seq::<char>::empty()
    }
}

/// The partition number at the end of a device name such as `/dev/sdd1`.
pub open spec fn partition_index_spec(name: Seq<char>) -> Option<u32> {
    if trailing_digits(name).len() == 0 {
        None
    } else {
        parse_u32(trailing_digits(name))
    }
}

proof fn lemma_trailing_digits(s: Seq<char>, j: int)
    requires
        0 <= j <= s.len(),
        forall|k: int| j <= k < s.len() ==> is_digit(#[trigger] s[k]),
        j == 0 || !is_digit(s[j - 1]),
    ensures
        trailing_digits(s) == s.skip(j),
    decreases s.len() - j,
{
    if j < s.len() {
        assert forall|k: int| j <= k < s.len() - 1 implies is_digit(#[trigger] s.drop_last()[k]) by {
            assert(s.drop_last()[k] == s[k]);
        }
        if j > 0 {
            assert(s.drop_last()[j - 1] == s[j - 1]);
        }
        lemma_trailing_digits(s.drop_last(), j);
        assert(s.drop_last().skip(j).push(s.last()) =~= s.skip(j));
    } else {
        assert(s.skip(j) =~= Seq::<char>::empty());
    }
}

/// The partition number that ends a device name, if it ends in digits that fit a `u32`.
pub fn partition_index(name: &str) -> (r: Option<u32>)
    ensures
        r == partition_index_spec(name@),
{
    let v = chars_of(name);
    let mut j = v.len();
    while j > 0 && '0' <= v[j - 1] && v[j - 1] <= '9'
        invariant
            j <= v.len(),
            forall|k: int| j <= k < v.len() ==> is_digit(#[trigger] v@[k]),
        decreases j,
    {
        j -= 1;
    }
    proof {
        lemma_trailing_digits(v@, j as int);
    }
    if j == v.len() {
        return None;
    }
    let mut d: Vec<char> = Vec::new();
    let mut k = j;
    while k < v.len()
        invariant
            j <= k <= v.len(),
            d@ == v@.subrange(j as int, k as int),
        decreases v.len() - k,
    {
        d.push(v[k]);
        assert(v@.subrange(j as int, k + 1) =~= v@.subrange(j as int, k as int).push(v@[k as int]));
        k += 1;
    }
    assert(d@ =~= v@.skip(j as int));
    parse_u32_chars(&d)
}

/// Lexicographic order of texts by character, which is the order of `String`s (UTF-8
/// preserves the order of code points).
pub open spec fn lex_lt(a: Seq<char>, b: Seq<char>) -> bool
    decreases a.len(),
{
    if a.len() == 0 {
        b.len() > 0
    } else if b.len() == 0 {
        false
    } else if a[0] != b[0] {
        a[0] < b[0]
    } else {
        lex_lt(a.drop_first(), b.drop_first())
    }
}

proof fn lemma_lex_transitive(a: Seq<char>, b: Seq<char>, c: Seq<char>)
    requires
        lex_lt(a, b),
        lex_lt(b, c),
    ensures
        lex_lt(a, c),
    decreases a.len(),
{
    if a.len() > 0 && b.len() > 0 && c.len() > 0 && a[0] == b[0] && b[0] == c[0] {
        lemma_lex_transitive(a.drop_first(), b.drop_first(), c.drop_first());
    }
}

proof fn lemma_lex_total(a: Seq<char>, b: Seq<char>)
    ensures
        a == b || lex_lt(a, b) || lex_lt(b, a),
        !(lex_lt(a, b) && lex_lt(b, a)),
        !lex_lt(a, a),
    decreases a.len(),
{
    lemma_lex_irreflexive(a);
    if a.len() > 0 && b.len() > 0 {
        lemma_lex_total(a.drop_first(), b.drop_first());
        if a[0] == b[0] && a.drop_first() == b.drop_first() {
            assert(a =~= seq![a[0]] + a.drop_first());
            assert(b =~= seq![b[0]] + b.drop_first());
        }
    }
}

proof fn lemma_lex_irreflexive(a: Seq<char>)
    ensures
        !lex_lt(a, a),
    decreases a.len(),
{
    if a.len() > 0 {
        lemma_lex_irreflexive(a.drop_first());
    }
}

/// Whether `a` sorts before `b`.
fn chars_lt(a: &Vec<char>, b: &Vec<char>) -> (r: bool)
    ensures
        r == lex_lt(a@, b@),
{
    let mut i: usize = 0;
    assert(a@.skip(0) =~= a@);
    assert(b@.skip(0) =~= b@);
    while i < a.len() && i < b.len()
        invariant
            i <= a.len(),
            i <= b.len(),
            lex_lt(a@.skip(i as int), b@.skip(i as int)) == lex_lt(a@, b@),
        decreases a.len() - i,
    {
        if a[i] != b[i] {
            return a[i] < b[i];
        }
        assert(a@.skip(i as int).drop_first() =~= a@.skip(i + 1));
        assert(b@.skip(i as int).drop_first() =~= b@.skip(i + 1));
        i += 1;
    }
    i == a.len() && i < b.len()
}

/// Whether `v` is strictly increasing.
pub open spec fn strictly_sorted(v: Seq<Seq<char>>) -> bool {
    forall|i: int, j: int| 0 <= i < j < v.len() ==> lex_lt(#[trigger] v[i], #[trigger] v[j])
}

/// The non-empty texts among a mount point and a list of mount points.
pub open spec fn wanted_points(mountpoint: Option<String>, listed: Seq<String>) -> Set<Seq<char>> {
    Set::new(
        |p: Seq<char>|
            p.len() > 0 && ((mountpoint matches Some(m) && m@ == p) || exists|i: int|
                0 <= i < listed.len() && #[trigger] listed[i]@ == p),
    )
}

/// The texts of a list.
pub open spec fn string_views(v: Seq<String>) -> Seq<Seq<char>> {
    v.map_values(|s: String| s@)
}

/// Adds `x` to the sorted list `v`, unless it is already there.
fn insert_sorted(v: &mut Vec<String>, x: String)
    requires
        strictly_sorted(string_views(old(v)@)),
    ensures
        strictly_sorted(string_views(final(v)@)),
        string_views(final(v)@).to_set() == string_views(old(v)@).to_set().insert(x@),
{
    let ghost before = string_views(v@);
    let xv = chars_of(x.as_str());
    let mut p: usize = 0;
    while p < v.len() && chars_lt(&chars_of(v[p].as_str()), &xv)
        invariant
            p <= v.len(),
            v@ == old(v)@,
            before == string_views(v@),
            forall|k: int| 0 <= k < p ==> lex_lt(#[trigger] before[k], x@),
            xv@ == x@,
        decreases v.len() - p,
    {
        assert(before[p as int] == v@[p as int]@);
        p += 1;
    }
    proof {
        if p < v.len() {
            assert(before[p as int] == v@[p as int]@);
        }
    }
    if p < v.len() && chars_eq(&chars_of(v[p].as_str()), &xv) {
        assert(before[p as int] == x@);
        assert(before.to_set().insert(x@) =~= before.to_set());
        return;
    }
    proof {
        if p < v.len() {
            lemma_lex_total(before[p as int], x@);
        }
    }
    v.insert(p, x);
    let ghost after = string_views(v@);
    assert(after =~= before.insert(p as int, x@));
    assert forall|i: int, j: int| 0 <= i < j < after.len() implies lex_lt(#[trigger] after[i], #[trigger] after[j]) by {
        if j < p {
        } else if j == p {
            assert(lex_lt(before[i], x@));
        } else if i < p {
            assert(lex_lt(before[i], x@));
            if j == p + 1 {
                assert(lex_lt(x@, before[p as int]));
                lemma_lex_transitive(before[i], x@, before[p as int]);
            } else {
                assert(lex_lt(x@, before[p as int]));
                assert(lex_lt(before[p as int], before[j - 1]));
                lemma_lex_transitive(x@, before[p as int], before[j - 1]);
                lemma_lex_transitive(before[i], x@, before[j - 1]);
            }
        } else if i == p {
            assert(lex_lt(x@, before[p as int]));
            if j - 1 > p {
                assert(lex_lt(before[p as int], before[j - 1]));
                lemma_lex_transitive(x@, before[p as int], before[j - 1]);
            }
        } else {
            assert(lex_lt(before[i - 1], before[j - 1]));
        }
    }
    assert(after.to_set() =~= before.to_set().insert(x@)) by {
        assert forall|s: Seq<char>| after.to_set().contains(s) implies before.to_set().insert(x@).contains(s) by {
            let k = choose|k: int| 0 <= k < after.len() && after[k] == s;
            if k < p {
                assert(before[k] == s);
            } else if k > p {
                assert(before[k - 1] == s);
            }
        }
        assert forall|s: Seq<char>| before.to_set().insert(x@).contains(s) implies after.to_set().contains(s) by {
            if s == x@ {
                assert(after[p as int] == s);
            } else {
                let k = choose|k: int| 0 <= k < before.len() && before[k] == s;
                if k < p {
                    assert(after[k] == s);
                } else {
                    assert(after[k + 1] == s);
                }
            }
        }
    }
}

/// The mount points that lsblk reports for a partition (`mountpoint` and the entries of
/// `mountpoints`), without empty entries, sorted and without repeats.
pub fn json_mountpoints(mountpoint: &Option<String>, listed: &Vec<String>) -> (r: Vec<String>)
    ensures
        strictly_sorted(string_views(r@)),
        string_views(r@).to_set() == wanted_points(*mountpoint, listed@),
{
    let mut points: Vec<String> = Vec::new();
    let ghost mut seen: Set<Seq<char>> = Set::empty();
    assert(string_views(points@).to_set() =~= Set::<Seq<char>>::empty());
    match mountpoint {
        Some(m) => {
            if !m.as_str().is_empty() {
                insert_sorted(&mut points, m.clone());
                proof {
                    seen = seen.insert(m@);
                }
            }
        },
        None => {},
    }
    let mut i: usize = 0;
    while i < listed.len()
        invariant
            i <= listed.len(),
            strictly_sorted(string_views(points@)),
            string_views(points@).to_set() == seen,
            seen == Set::new(
                |p: Seq<char>|
                    p.len() > 0 && ((mountpoint matches Some(m) && m@ == p) || exists|k: int|
                        0 <= k < i && #[trigger] listed@[k]@ == p),
            ),
        decreases listed.len() - i,
    {
        let ghost prev = seen;
        if !listed[i].as_str().is_empty() {
            insert_sorted(&mut points, listed[i].clone());
            proof {
                seen = seen.insert(listed@[i as int]@);
            }
        }
        assert(seen =~= Set::new(
            |p: Seq<char>|
                p.len() > 0 && ((mountpoint matches Some(m) && m@ == p) || exists|k: int|
                    0 <= k < i + 1 && #[trigger] listed@[k]@ == p),
        )) by {
            assert forall|p: Seq<char>| seen.contains(p) implies p.len() > 0 && ((mountpoint matches Some(m) && m@ == p) || exists|k: int|
                    0 <= k < i + 1 && #[trigger] listed@[k]@ == p) by {
                if prev.contains(p) {
                    if !(mountpoint matches Some(m) && m@ == p) {
                        let k = choose|k: int| 0 <= k < i && #[trigger] listed@[k]@ == p;
                        assert(listed@[k]@ == p);
                    }
                } else {
                    assert(listed@[i as int]@ == p);
                }
            }
            assert forall|p: Seq<char>| (p.len() > 0 && ((mountpoint matches Some(m) && m@ == p) || exists|k: int|
                    0 <= k < i + 1 && #[trigger] listed@[k]@ == p)) implies seen.contains(p) by {
                if !(mountpoint matches Some(m) && m@ == p) {
                    let k = choose|k: int| 0 <= k < i + 1 && #[trigger] listed@[k]@ == p;
                    if k < i {
                        assert(prev.contains(p));
                    }
                }
            }
        }
        i += 1;
    }
    assert(seen =~= wanted_points(*mountpoint, listed@));
    points
}

/// A block device that lsblk lists at the top level.
#[derive(Clone, Debug)]
pub struct LsblkDevice {
    pub name: Option<String>,
    /// The `type` column: `disk`, `part`, `loop` and so on.
    pub kind: Option<String>,
    pub serial: Option<String>,
    /// The partitions, when lsblk lists them as an array.
    pub children: Option<Vec<LsblkPartition>>,
}

/// A partition that lsblk lists under a disk.
#[derive(Clone, Debug)]
pub struct LsblkPartition {
    pub name: Option<String>,
    pub mountpoint: Option<String>,
    pub mountpoints: Vec<String>,
}

/// Why the partition of a rule was not found inside WSL.
#[derive(Clone, Debug)]
pub enum PartitionError {
    /// No disk inside WSL matches the physical drive.
    DiskNotFound(u32),
    /// The disk was found, but not the partition.
    PartitionMissing(u32, u32),
}

impl PartitionError {
    /// The message for this error.
    pub fn message(&self) -> (r: String)
        ensures
            r@ == match *self {
                PartitionError::DiskNotFound(n) => "Could not find PHYSICALDRIVE"@ + crate::text::decimal(n as nat)
                    + " inside WSL. Is the disk attached with --bare?"@,
                PartitionError::PartitionMissing(n, p) => "Found disk PHYSICALDRIVE"@ + crate::text::decimal(n as nat)
                    + " but partition "@ + crate::text::decimal(p as nat) + " is missing"@,
            },
    {
        match self {
            PartitionError::DiskNotFound(n) => {
                let mut v = chars_of("Could not find PHYSICALDRIVE");
                crate::text::push_decimal(&mut v, *n as u64);
                append_chars(&mut v, &chars_of(" inside WSL. Is the disk attached with --bare?"));
                string_of(&v)
            },
            PartitionError::PartitionMissing(n, p) => {
                let mut v = chars_of("Found disk PHYSICALDRIVE");
                crate::text::push_decimal(&mut v, *n as u64);
                append_chars(&mut v, &chars_of(" but partition "));
                crate::text::push_decimal(&mut v, *p as u64);
                append_chars(&mut v, &chars_of(" is missing"));
                string_of(&v)
            },
        }
    }
}

/// Whether `d` is a disk whose serial number is `want` (ignoring ASCII case and the spaces
/// around the reported serial).
pub open spec fn serial_hit(d: LsblkDevice, want: Option<String>) -> bool {
    &&& d.kind matches Some(k) && k@ == "disk"@
    &&& want matches Some(w) && w@.len() > 0
    &&& d.serial matches Some(h) && ascii_lower(want->0@) == ascii_lower(trim(h@))
}

/// Whether `d` is a disk whose size matches the physical drive's (as `size_ok[i]` says).
pub open spec fn size_hit(d: LsblkDevice, size_ok: bool) -> bool {
    &&& d.kind matches Some(k) && k@ == "disk"@
    &&& size_ok
}

/// Which lsblk disk is the physical drive: the first one with the drive's serial number;
/// failing that, the last one whose size matches; -1 when none does.
pub open spec fn matched_disk(ds: Seq<LsblkDevice>, want: Option<String>, size_ok: Seq<bool>) -> int
    decreases ds.len(),
{
    if ds.len() == 0 {
        -1
    } else {
        let n = ds.len() - 1;
        let before = matched_disk(ds.drop_last(), want, size_ok.take(n));
        let serial_first = exists|k: int| 0 <= k < n && serial_hit(#[trigger] ds[k], want);
        if serial_first {
            before
        } else if serial_hit(ds[n], want) || size_hit(ds[n], size_ok[n]) {
            n
        } else {
            before
        }
    }
}

/// Index of the first child whose name ends in the number `partition`, or -1.
pub open spec fn first_numbered(cs: Seq<LsblkPartition>, partition: u32) -> int
    decreases cs.len(),
{
    if cs.len() == 0 {
        -1
    } else if first_numbered(cs.drop_last(), partition) >= 0 {
        first_numbered(cs.drop_last(), partition)
    } else if child_numbered(cs.last(), partition) {
        cs.len() - 1
    } else {
        -1
    }
}

/// The partition that holds rule partition `partition`: the first child whose name ends in
/// that number; failing that, the child at position `partition - 1` if it has a name; -1
/// when there is none.
pub open spec fn chosen_child(children: Option<Vec<LsblkPartition>>, partition: u32) -> int {
    match children {
        Some(cs) => {
            if first_numbered(cs@, partition) >= 0 {
                first_numbered(cs@, partition)
            } else {
                let f = if partition == 0 {
                    0
                } else {
                    partition - 1
                };
                if f < cs@.len() && cs@[f as int].name is Some {
                    f as int
                } else {
                    -1
                }
            }
        },
        None => -1,
    }
}

proof fn lemma_first_numbered(cs: Seq<LsblkPartition>, partition: u32)
    ensures
        -1 <= first_numbered(cs, partition) < cs.len(),
        first_numbered(cs, partition) >= 0 ==> child_numbered(cs[first_numbered(cs, partition)], partition),
        forall|k: int|
            0 <= k < cs.len() && (first_numbered(cs, partition) < 0 || k < first_numbered(cs, partition))
                ==> !child_numbered(#[trigger] cs[k], partition),
    decreases cs.len(),
{
    if cs.len() > 0 {
        lemma_first_numbered(cs.drop_last(), partition);
        assert forall|k: int| 0 <= k < cs.len() - 1 implies cs.drop_last()[k] == cs[k] by {}
    }
}

/// Whether a child's name ends in the number `partition`.
pub open spec fn child_numbered(c: LsblkPartition, partition: u32) -> bool {
    partition_index_spec(match c.name {
        Some(n) => n@,
        None => Seq::<char>::empty(),
    }) == Some(partition)
}

proof fn lemma_matched_after_hit(ds: Seq<LsblkDevice>, want: Option<String>, ok: Seq<bool>, i: int)
    requires
        0 <= i < ds.len(),
        ok.len() == ds.len(),
        serial_hit(ds[i], want),
        forall|k: int| 0 <= k < i ==> !serial_hit(#[trigger] ds[k], want),
    ensures
        matched_disk(ds, want, ok) == i,
    decreases ds.len(),
{
    let n = ds.len() - 1;
    if n > i {
        assert(serial_hit(ds[i], want));
        assert forall|k: int| 0 <= k < i implies !serial_hit(#[trigger] ds.drop_last()[k], want) by {
            assert(ds.drop_last()[k] == ds[k]);
        }
        assert(ds.drop_last()[i] == ds[i]);
        lemma_matched_after_hit(ds.drop_last(), want, ok.take(n), i);
    } else {
        assert forall|k: int| 0 <= k < n implies !serial_hit(#[trigger] ds[k], want) by {}
    }
}

/// When some listed disk has the drive's size, some disk is matched.
proof fn lemma_size_disk_matched(ds: Seq<LsblkDevice>, want: Option<String>, ok: Seq<bool>, k: int)
    requires
        ok.len() == ds.len(),
        0 <= k < ds.len(),
        ds[k].kind matches Some(t) && t@ == "disk"@,
        ok[k],
    ensures
        matched_disk(ds, want, ok) >= 0,
    decreases ds.len(),
{
    let n = ds.len() - 1;
    if k < n {
        assert(ds.drop_last()[k] == ds[k]);
        assert(ok.take(n)[k] == ok[k]);
        lemma_size_disk_matched(ds.drop_last(), want, ok.take(n), k);
    } else if exists|j: int| 0 <= j < n && serial_hit(#[trigger] ds[j], want) {
        let j = choose|j: int| 0 <= j < n && serial_hit(#[trigger] ds[j], want);
        assert(ds.drop_last()[j] == ds[j]);
        lemma_serial_disk_matched(ds.drop_last(), want, ok.take(n), j);
    }
}

/// When some listed disk has the expected serial number, some disk is matched.
proof fn lemma_serial_disk_matched(ds: Seq<LsblkDevice>, want: Option<String>, ok: Seq<bool>, k: int)
    requires
        ok.len() == ds.len(),
        0 <= k < ds.len(),
        serial_hit(ds[k], want),
    ensures
        matched_disk(ds, want, ok) >= 0,
    decreases ds.len(),
{
    let n = ds.len() - 1;
    if k < n {
        assert(ds.drop_last()[k] == ds[k]);
        lemma_serial_disk_matched(ds.drop_last(), want, ok.take(n), k);
    } else if exists|j: int| 0 <= j < n && serial_hit(#[trigger] ds[j], want) {
        let j = choose|j: int| 0 <= j < n && serial_hit(#[trigger] ds[j], want);
        assert(ds.drop_last()[j] == ds[j]);
        lemma_serial_disk_matched(ds.drop_last(), want, ok.take(n), j);
    }
}

/// The matched disk, if any, is a listed disk with the drive's serial number or size.
proof fn lemma_matched_is_hit(ds: Seq<LsblkDevice>, want: Option<String>, ok: Seq<bool>)
    requires
        ok.len() == ds.len(),
    ensures
        matched_disk(ds, want, ok) < ds.len(),
        matched_disk(ds, want, ok) >= 0 ==> serial_hit(ds[matched_disk(ds, want, ok)], want) || size_hit(
            ds[matched_disk(ds, want, ok)],
            ok[matched_disk(ds, want, ok)],
        ),
    decreases ds.len(),
{
    if ds.len() > 0 {
        let n = ds.len() - 1;
        lemma_matched_is_hit(ds.drop_last(), want, ok.take(n));
        let m = matched_disk(ds.drop_last(), want, ok.take(n));
        if m >= 0 {
            assert(ds.drop_last()[m] == ds[m]);
            assert(ok.take(n)[m] == ok[m]);
        }
    }
}

/// Finding the physical drive among lsblk's devices: whenever some listed disk has the
/// drive's size, a drive is found, whether or not a serial number was expected; when a
/// listed disk has the expected serial number (ignoring ASCII case and surrounding
/// whitespace) and no disk before it does, that disk is the one found; and the disk found
/// always is a disk with the drive's serial number or size.
pub proof fn lemma_drive_found_by_serial_or_size(ds: Seq<LsblkDevice>, want: Option<String>, ok: Seq<bool>)
    requires
        ok.len() == ds.len(),
    ensures
        forall|k: int|
            0 <= k < ds.len() && (ds[k].kind matches Some(t) && t@ == "disk"@) && #[trigger] ok[k]
                ==> matched_disk(ds, want, ok) >= 0,
        forall|i: int|
            #![trigger ds[i]]
            0 <= i < ds.len() && (ds[i].kind matches Some(t) && t@ == "disk"@) && (want matches Some(w)
                && w@.len() > 0 && (ds[i].serial matches Some(h) && ascii_lower(w@) == ascii_lower(
                trim(h@),
            ))) && (forall|k: int| 0 <= k < i ==> !serial_hit(#[trigger] ds[k], want)) ==> matched_disk(
                ds,
                want,
                ok,
            ) == i,
        matched_disk(ds, want, ok) < ds.len(),
        matched_disk(ds, want, ok) >= 0 ==> ({
            let m = matched_disk(ds, want, ok);
            &&& ds[m].kind matches Some(t) && t@ == "disk"@
            &&& ok[m] || (want matches Some(w) && w@.len() > 0 && (ds[m].serial matches Some(h)
                && ascii_lower(w@) == ascii_lower(trim(h@))))
        }),
{
    assert forall|k: int|
        0 <= k < ds.len() && (ds[k].kind matches Some(t) && t@ == "disk"@) && #[trigger] ok[k]
            implies matched_disk(ds, want, ok) >= 0 by {
        lemma_size_disk_matched(ds, want, ok, k);
    }
    assert forall|i: int|
        #![trigger ds[i]]
        0 <= i < ds.len() && serial_hit(ds[i], want) && (forall|k: int|
            0 <= k < i ==> !serial_hit(#[trigger] ds[k], want)) implies matched_disk(ds, want, ok) == i by {
        lemma_matched_after_hit(ds, want, ok, i);
    }
    lemma_matched_is_hit(ds, want, ok);
}

/// Whether the lsblk device is a disk.
fn is_disk(d: &LsblkDevice) -> (r: bool)
    ensures
        r == (d.kind matches Some(k) && k@ == "disk"@),
{
    match &d.kind {
        Some(k) => crate::text::str_eq(k.as_str(), "disk"),
        None => false,
    }
}

/// Whether `d` is a disk with the serial number `want`.
fn device_serial_hit(d: &LsblkDevice, want: &Option<String>) -> (r: bool)
    ensures
        r == serial_hit(*d, *want),
{
    if !is_disk(d) {
        return false;
    }
    match (want, &d.serial) {
        (Some(w), Some(h)) => !w.as_str().is_empty() && eq_ignore_ascii_case(
            w.as_str(),
            trimmed(h.as_str()).as_str(),
        ),
        _ => false,
    }
}

/// Which of `devices` is the physical drive, as `matched_disk` states.
fn match_disk_index(devices: &Vec<LsblkDevice>, expected_serial: &Option<String>, size_ok: &Vec<bool>) -> (r: Option<usize>)
    requires
        size_ok.len() == devices.len(),
    ensures
        match r {
            Some(x) => x as int == matched_disk(devices@, *expected_serial, size_ok@) && x < devices.len(),
            None => matched_disk(devices@, *expected_serial, size_ok@) < 0,
        },
{
    let ghost want = *expected_serial;
    let mut matched: Option<usize> = None;
    let mut i: usize = 0;
    while i < devices.len()
        invariant
            i <= devices.len() == size_ok.len(),
            want == *expected_serial,
            forall|k: int| 0 <= k < i ==> !serial_hit(#[trigger] devices@[k], want),
            match matched {
                Some(x) => x as int == matched_disk(devices@.take(i as int), want, size_ok@.take(i as int)) && x < i,
                None => matched_disk(devices@.take(i as int), want, size_ok@.take(i as int)) < 0,
            },
        decreases devices.len() - i,
    {
        let d = &devices[i];
        let ghost di = devices@.take(i + 1);
        proof {
            assert(di.drop_last() =~= devices@.take(i as int));
            assert(size_ok@.take(i + 1).take(i as int) =~= size_ok@.take(i as int));
            assert(di[i as int] == devices@[i as int]);
            assert(size_ok@.take(i + 1)[i as int] == size_ok@[i as int]);
            assert forall|k: int| 0 <= k < i implies !serial_hit(#[trigger] di[k], want) by {
                assert(di[k] == devices@[k]);
            }
        }
        if device_serial_hit(d, expected_serial) {
            proof {
                lemma_matched_after_hit(devices@, want, size_ok@, i as int);
            }
            return Some(i);
        }
        if is_disk(d) && size_ok[i] {
            matched = Some(i);
        }
        i += 1;
    }
    proof {
        assert(devices@.take(devices.len() as int) =~= devices@);
        assert(size_ok@.take(size_ok.len() as int) =~= size_ok@);
    }
    matched
}

/// Which child holds rule partition `partition`, as `chosen_child` states.
fn child_index(cs: &Vec<LsblkPartition>, partition: u32) -> (r: Option<usize>)
    ensures
        match r {
            Some(k) => k as int == chosen_child(Some(*cs), partition) && k < cs.len(),
            None => chosen_child(Some(*cs), partition) < 0,
        },
{
    proof {
        lemma_first_numbered(cs@, partition);
    }
    let mut k: usize = 0;
    while k < cs.len()
        invariant
            k <= cs.len(),
            forall|q: int| 0 <= q < k ==> !child_numbered(#[trigger] cs@[q], partition),
        decreases cs.len() - k,
    {
        let c = &cs[k];
        let idx = match &c.name {
            Some(n) => partition_index(n.as_str()),
            None => None,
        };
        if idx == Some(partition) {
            proof {
                lemma_first_numbered(cs@, partition);
                assert(child_numbered(cs@[k as int], partition));
                let p = first_numbered(cs@, partition);
                if p < 0 {
                    assert(!child_numbered(cs@[k as int], partition));
                } else if p < k {
                    assert(!child_numbered(cs@[p], partition));
                } else if p > k {
                    assert(!child_numbered(cs@[k as int], partition));
                }
            }
            return Some(k);
        }
        k += 1;
    }
    proof {
        lemma_first_numbered(cs@, partition);
    }
    let f: usize = if partition == 0 {
        0
    } else {
        (partition - 1) as usize
    };
    if f < cs.len() && cs[f].name.is_some() {
        Some(f)
    } else {
        None
    }
}

/// Finds the partition of `rule` among the block devices that lsblk lists inside WSL.
/// `expected_serial` is the physical drive's serial number, if known, and `size_ok[i]` says
/// whether the size of `devices[i]` matches the drive's.
pub fn find_partition(
    devices: &Vec<LsblkDevice>,
    rule: &DiskRule,
    expected_serial: &Option<String>,
    size_ok: &Vec<bool>,
) -> (r: Result<PartitionPresence, PartitionError>)
    requires
        size_ok.len() == devices.len(),
    ensures
        ({
            let m = matched_disk(devices@, *expected_serial, size_ok@);
            match r {
                Err(PartitionError::DiskNotFound(n)) => m < 0 && n == rule.disk_number,
                Err(PartitionError::PartitionMissing(n, p)) => {
                    &&& 0 <= m < devices@.len()
                    &&& chosen_child(devices@[m].children, rule.partition) < 0
                    &&& n == rule.disk_number
                    &&& p == rule.partition
                },
                Ok(pres) => {
                    &&& 0 <= m < devices@.len()
                    &&& devices@[m].children matches Some(cs) && {
                        let c = chosen_child(devices@[m].children, rule.partition);
                        &&& 0 <= c < cs@.len()
                        &&& cs@[c].name matches Some(nm) && pres.device@ == nm@
                        &&& strictly_sorted(string_views(pres.mountpoints@))
                        &&& string_views(pres.mountpoints@).to_set() == wanted_points(
                            cs@[c].mountpoint,
                            cs@[c].mountpoints@,
                        )
                    }
                },
            }
        }),
{
    let m = match match_disk_index(devices, expected_serial, size_ok) {
        Some(x) => x,
        None => {
            return Err(PartitionError::DiskNotFound(rule.disk_number));
        },
    };
    match &devices[m].children {
        Some(cs) => match child_index(cs, rule.partition) {
            Some(k) => {
                let c = &cs[k];
                match &c.name {
                    Some(n) => Ok(
                        PartitionPresence {
                            device: n.clone(),
                            mountpoints: json_mountpoints(&c.mountpoint, &c.mountpoints),
                        },
                    ),
                    None => {
                        proof {
                            lemma_first_numbered(cs@, rule.partition);
                            if first_numbered(cs@, rule.partition) >= 0 {
                                assert(child_numbered(cs@[k as int], rule.partition));
                                assert(trailing_digits(Seq::<char>::empty()).len() == 0);
                            }
                        }
                        Err(PartitionError::PartitionMissing(rule.disk_number, rule.partition))
                    },
                }
            },
            None => Err(PartitionError::PartitionMissing(rule.disk_number, rule.partition)),
        },
        None => Err(PartitionError::PartitionMissing(rule.disk_number, rule.partition)),
    }
}

/// The shell script that reports which device is mounted at `__MP__`: `MOUNTED <device>`
/// or `NOTMOUNTED`. It asks findmnt, then the mount tables, then compares device numbers.
pub const PROBE_SCRIPT: &'static str = r#"
mp='__MP__'
src=""
if command -v findmnt >/dev/null 2>&1; then
  src=$(findmnt -n -o SOURCE --mountpoint "$mp" 2>/dev/null || true)
fi
read_src() {
  if [ -n "$src" ] || [ ! -r "$1" ]; then
    return
  fi
  while read -r dev point _rest; do
    if [ "$point" = "$mp" ]; then
      src=$dev
      break
    fi
  done < "$1"
}
read_src /proc/self/mounts
read_src /proc/mounts
if [ -z "$src" ] && [ -d "$mp" ]; then
  d1=$(stat -c %d "$mp" 2>/dev/null || true)
  d0=$(stat -c %d "${mp%/*}" 2>/dev/null || true)
  if [ -n "$d1" ] && [ -n "$d0" ] && [ "$d1" != "$d0" ]; then
    src=$(df -P "$mp" 2>/dev/null | awk 'NR==2 { print $1 }')
    [ -n "$src" ] || src=unknown
  fi
fi
if [ -n "$src" ]; then
  printf 'MOUNTED %s\n' "$src"
else
  printf 'NOTMOUNTED\n'
fi
"#;

/// The probe script for `mount_point`, trimmed, with the mount point quoted in.
pub open spec fn probe_command_spec(mount_point: Seq<char>) -> Seq<char> {
    trim(replace_all(PROBE_SCRIPT@, "__MP__"@, shell_escape(mount_point)))
}

/// The command that asks WSL what is mounted at `mount_point`.
pub fn probe_command(mount_point: &str) -> (r: String)
    ensures
        r@ == probe_command_spec(mount_point@),
{
    let mp = shell_quote_inner(mount_point);
    proof {
        reveal_strlit("__MP__");
    }
    let filled = replace_chars(&chars_of(PROBE_SCRIPT), &chars_of("__MP__"), &mp);
    let (a, b) = trim_bounds(&filled);
    string_of_range(&filled, a, b)
}

/// The device that one output line reports: `MOUNTED <device>` after trimming.
pub open spec fn probe_line(line: Seq<char>) -> Option<Seq<char>> {
    let l = trim(line);
    if starts_with(l, "MOUNTED"@) && trim(l.skip(7)).len() > 0 {
        Some(trim(l.skip(7)))
    } else {
        None
    }
}

/// The device that the first reporting line names, if any.
pub open spec fn first_probe(lines: Seq<Seq<char>>) -> Option<Seq<char>>
    decreases lines.len(),
{
    if lines.len() == 0 {
        None
    } else {
        match probe_line(lines[0]) {
            Some(d) => Some(d),
            None => first_probe(lines.drop_first()),
        }
    }
}

/// The device a probe line reports, if it reports one.
fn probe_line_device(line: &Vec<char>) -> (r: Option<String>)
    ensures
        match r {
            Some(d) => probe_line(line@) == Some(d@),
            None => probe_line(line@) is None,
        },
{
    let (a, b) = trim_bounds(line);
    let mut l: Vec<char> = Vec::new();
    let mut k = a;
    while k < b
        invariant
            a <= k <= b <= line.len(),
            l@ == line@.subrange(a as int, k as int),
        decreases b - k,
    {
        l.push(line[k]);
        assert(line@.subrange(a as int, k + 1) =~= line@.subrange(a as int, k as int).push(line@[k as int]));
        k += 1;
    }
    assert(l@ == trim(line@));
    let tag = chars_of("MOUNTED");
    proof {
        reveal_strlit("MOUNTED");
    }
    if !chars_start_with(&l, &tag) {
        return None;
    }
    let mut rest: Vec<char> = Vec::new();
    let mut j: usize = 7;
    while j < l.len()
        invariant
            7 <= j <= l.len(),
            rest@ == l@.subrange(7, j as int),
        decreases l.len() - j,
    {
        rest.push(l[j]);
        assert(l@.subrange(7, j + 1) =~= l@.subrange(7, j as int).push(l@[j as int]));
        j += 1;
    }
    assert(rest@ =~= l@.skip(7));
    let (c, d) = trim_bounds(&rest);
    if c == d {
        return None;
    }
    Some(string_of_range(&rest, c, d))
}

/// What the probe reports: mounted, with the device named by the first `MOUNTED` line.
pub fn parse_probe_output(output: &str) -> (r: PartitionProbe)
    ensures
        match first_probe(split_on(output@, '\n')) {
            Some(d) => r.mounted && (r.device matches Some(x) && x@ == d),
            None => !r.mounted && r.device is None,
        },
{
    let lines = split_chars(&chars_of(output), '\n');
    let ghost ls = views(lines@);
    let mut i: usize = 0;
    assert(ls.skip(0) =~= ls);
    while i < lines.len()
        invariant
            i <= lines.len(),
            ls == views(lines@),
            ls == split_on(output@, '\n'),
            first_probe(ls.skip(i as int)) == first_probe(ls),
        decreases lines.len() - i,
    {
        assert(ls.skip(i as int)[0] == lines@[i as int]@);
        match probe_line_device(&lines[i]) {
            Some(d) => {
                return PartitionProbe { mounted: true, device: Some(d) };
            },
            None => {},
        }
        assert(ls.skip(i as int).drop_first() =~= ls.skip(i + 1));
        i += 1;
    }
    assert(ls.skip(i as int).len() == 0);
    PartitionProbe::default()
}

/// Index of the first disk numbered `number`, or -1.
pub open spec fn disk_index(ds: Seq<DiskInfo>, number: u32) -> int
    decreases ds.len(),
{
    if ds.len() == 0 {
        -1
    } else if disk_index(ds.drop_last(), number) >= 0 {
        disk_index(ds.drop_last(), number)
    } else if ds.last().number == number {
        ds.len() - 1
    } else {
        -1
    }
}

proof fn lemma_disk_index(ds: Seq<DiskInfo>, number: u32)
    ensures
        -1 <= disk_index(ds, number) < ds.len(),
        disk_index(ds, number) >= 0 ==> ds[disk_index(ds, number)].number == number,
        forall|k: int|
            0 <= k < ds.len() && (disk_index(ds, number) < 0 || k < disk_index(ds, number))
                ==> (#[trigger] ds[k]).number != number,
    decreases ds.len(),
{
    if ds.len() > 0 {
        lemma_disk_index(ds.drop_last(), number);
        assert forall|k: int| 0 <= k < ds.len() - 1 implies ds.drop_last()[k] == ds[k] by {}
    }
}

/// Position of the first disk numbered `number` in `disks`.
fn find_disk(disks: &Vec<DiskInfo>, number: u32) -> (r: Option<usize>)
    ensures
        match r {
            Some(i) => i as int == disk_index(disks@, number) && i < disks.len(),
            None => disk_index(disks@, number) < 0,
        },
{
    proof {
        lemma_disk_index(disks@, number);
    }
    let mut i: usize = 0;
    while i < disks.len()
        invariant
            i <= disks.len(),
            forall|k: int| 0 <= k < i ==> (#[trigger] disks@[k]).number != number,
        decreases disks.len() - i,
    {
        if disks[i].number == number {
            proof {
                lemma_disk_index(disks@, number);
                let p = disk_index(disks@, number);
                if p < 0 || p > i {
                    assert(disks@[i as int].number == number);
                } else if p < i {
                    assert(disks@[p].number != number);
                }
            }
            return Some(i);
        }
        i += 1;
    }
    None
}

/// The size of physical drive `number` from the inventory, when its first entry knows one.
pub open spec fn cached_size_spec(ds: Seq<DiskInfo>, number: u32) -> Option<u64> {
    let i = disk_index(ds, number);
    if i >= 0 && ds[i].size > 0 {
        Some(ds[i].size)
    } else {
        None
    }
}

/// The size of physical drive `number` known from the last inventory, if any.
pub fn cached_disk_size(disks: &Vec<DiskInfo>, number: u32) -> (r: Option<u64>)
    ensures
        r == cached_size_spec(disks@, number),
{
    match find_disk(disks, number) {
        Some(i) => if disks[i].size > 0 {
            Some(disks[i].size)
        } else {
            None
        },
        None => None,
    }
}

/// The serial number of physical drive `number` from the inventory, when its first entry
/// has a non-empty one.
pub open spec fn cached_serial_spec(ds: Seq<DiskInfo>, number: u32) -> Option<Seq<char>> {
    let i = disk_index(ds, number);
    if i >= 0 && (ds[i].serial matches Some(s) && s@.len() > 0) {
        Some(ds[i].serial->0@)
    } else {
        None
    }
}

/// The serial number of physical drive `number` known from the last inventory, if any.
pub fn cached_disk_serial(disks: &Vec<DiskInfo>, number: u32) -> (r: Option<String>)
    ensures
        match r {
            Some(s) => cached_serial_spec(disks@, number) == Some(s@),
            None => cached_serial_spec(disks@, number) is None,
        },
{
    match find_disk(disks, number) {
        Some(i) => match &disks[i].serial {
            Some(s) => if s.as_str().is_empty() {
                None
            } else {
                Some(s.clone())
            },
            None => None,
        },
        None => None,
    }
}

/// The PowerShell query for one property of physical drive `number`:
/// `[int64](Get-Disk -Number <n>).Size` or `(Get-Disk -Number <n>).SerialNumber`.
pub open spec fn disk_query_spec(number: u32, serial: bool) -> Seq<char> {
    if serial {
        "(Get-Disk -Number "@ + crate::text::decimal(number as nat) + ").SerialNumber"@
    } else {
        "[int64](Get-Disk -Number "@ + crate::text::decimal(number as nat) + ").Size"@
    }
}

/// The PowerShell query for the size (or, with `serial`, the serial number) of a drive.
pub fn disk_query(number: u32, serial: bool) -> (r: String)
    ensures
        r@ == disk_query_spec(number, serial),
{
    let mut v = if serial {
        chars_of("(Get-Disk -Number ")
    } else {
        chars_of("[int64](Get-Disk -Number ")
    };
    crate::text::push_decimal(&mut v, number as u64);
    if serial {
        append_chars(&mut v, &chars_of(").SerialNumber"));
    } else {
        append_chars(&mut v, &chars_of(").Size"));
    }
    string_of(&v)
}

/// What PowerShell runs for `script`: progress output off and UTF-8 console output first.
pub open spec fn powershell_command_spec(script: Seq<char>) -> Seq<char> {
    "$ProgressPreference='SilentlyContinue'; [Console]::OutputEncoding = New-Object System.Text.UTF8Encoding $false; "@
        + script
}

/// The full PowerShell command text for `script`.
pub fn powershell_command(script: &str) -> (r: String)
    ensures
        r@ == powershell_command_spec(script@),
{
    let mut s = String::from_str(
        "$ProgressPreference='SilentlyContinue'; [Console]::OutputEncoding = New-Object System.Text.UTF8Encoding $false; ",
    );
    s.append(script);
    s
}

} // verus!
