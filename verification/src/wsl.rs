//! WSL distributions: parsing `wsl -l -v`, choosing the configured distro, decoding output.
use vstd::prelude::*;
use crate::bindings::{char_utf16, from_utf16_lossy, from_utf8_lossy, utf16_encode, utf16_lossy, utf8_lossy};
use vstd::utf8::{decode_utf8, encode_utf8, encode_utf8_decode_utf8, encode_utf8_valid_utf8, is_ascii_chars, is_ascii_chars_encode_utf8, valid_utf8};
use crate::text::{
    ascii_lower, chars_contain, chars_of, chars_start_with, contains, eq_ignore_ascii_case,
    is_whitespace, join, join_chars, lower_chars, parse_u32, parse_u32_chars, split_chars,
    split_on, starts_with, string_of, trim, trim_bounds, views, words, words_of,
};

verus! {

/// An installed WSL distribution, as `wsl -l -v` lists it.
#[derive(Clone, Debug)]
pub struct DistroInfo {
    pub name: String,
    pub state: String,
    pub version: u32,
    pub is_default: bool,
}

/// The mathematical content of a `DistroInfo`.
pub struct DistroModel {
    pub name: Seq<char>,
    pub state: Seq<char>,
    pub version: u32,
    pub is_default: bool,
}

impl View for DistroInfo {
    type V = DistroModel;

    open spec fn view(&self) -> DistroModel {
        DistroModel {
            name: self.name@,
            state: self.state@,
            version: self.version,
            is_default: self.is_default,
        }
    }
}

/// The models of a list of distributions.
pub open spec fn distro_models(ds: Seq<DistroInfo>) -> Seq<DistroModel> {
    ds.map_values(|d: DistroInfo| d@)
}

/// `s` without its leading `*` characters.
pub open spec fn strip_stars(s: Seq<char>) -> Seq<char>
    decreases s.len(),
{
    if s.len() > 0 && s[0] == '*' {
        strip_stars(s.drop_first())
    } else {
        s
    }
}

/// The distribution that one line of `wsl -l -v` describes, if any: blank lines, the
/// header (`NAME ...`) and lines mentioning "Windows Subsystem" describe none; a leading `*`
/// marks the default; the last two words are the state and the version (2 when it does not
/// parse), and the words before them, joined by single spaces, are the name.
pub open spec fn parse_distro_line(line: Seq<char>) -> Option<DistroModel> {
    let raw = trim(line);
    let lower = ascii_lower(raw);
    if raw.len() == 0 {
        None
    } else if contains(lower, "windows subsystem"@) || starts_with(lower, "name"@) {
        None
    } else {
        let parts = words(trim(strip_stars(raw)));
        if parts.len() < 3 {
            None
        } else {
            let name = join(parts.take(parts.len() - 2), " "@);
            if name.len() == 0 {
                None
            } else {
                Some(
                    DistroModel {
                        name,
                        state: parts[parts.len() - 2],
                        version: match parse_u32(parts.last()) {
                            Some(v) => v,
                            None => 2,
                        },
                        is_default: raw[0] == '*',
                    },
                )
            }
        }
    }
}

/// The distributions described by `lines`, in order.
pub open spec fn parse_lines(lines: Seq<Seq<char>>) -> Seq<DistroModel>
    decreases lines.len(),
{
    if lines.len() == 0 {
        Seq::<DistroModel>::empty()
    } else {
        let p = parse_lines(lines.drop_last());
        match parse_distro_line(lines.last()) {
            Some(d) => p.push(d),
            None => p,
        }
    }
}

/// Parses one line of `wsl -l -v`.
fn parse_line(line: &Vec<char>) -> (r: Option<DistroInfo>)
    ensures
        match r {
            Some(d) => parse_distro_line(line@) == Some(d@),
            None => parse_distro_line(line@) is None,
        },
{
    let (a, b) = trim_bounds(line);
    let mut raw: Vec<char> = Vec::new();
    let mut k = a;
    while k < b
        invariant
            a <= k <= b <= line.len(),
            raw@ == line@.subrange(a as int, k as int),
        decreases b - k,
    {
        raw.push(line[k]);
        assert(line@.subrange(a as int, k + 1) =~= line@.subrange(a as int, k as int).push(line@[k as int]));
        k += 1;
    }
    assert(raw@ == trim(line@));
    if raw.len() == 0 {
        return None;
    }
    let lower = lower_chars(&raw);
    if chars_contain(&lower, &chars_of("windows subsystem")) || chars_start_with(&lower, &chars_of("name")) {
        return None;
    }
    let is_default = raw[0] == '*';
    let mut s: usize = 0;
    assert(raw@.skip(0) =~= raw@);
    while s < raw.len() && raw[s] == '*'
        invariant
            s <= raw.len(),
            strip_stars(raw@.skip(s as int)) == strip_stars(raw@),
        decreases raw.len() - s,
    {
        assert(raw@.skip(s as int).drop_first() =~= raw@.skip(s + 1));
        s += 1;
    }
    assert(strip_stars(raw@.skip(s as int)) == raw@.skip(s as int));
    let mut rest: Vec<char> = Vec::new();
    let mut k2 = s;
    while k2 < raw.len()
        invariant
            s <= k2 <= raw.len(),
            rest@ == raw@.subrange(s as int, k2 as int),
        decreases raw.len() - k2,
    {
        rest.push(raw[k2]);
        assert(raw@.subrange(s as int, k2 + 1) =~= raw@.subrange(s as int, k2 as int).push(raw@[k2 as int]));
        k2 += 1;
    }
    assert(rest@ =~= raw@.skip(s as int));
    let (c, d) = trim_bounds(&rest);
    let mut inner: Vec<char> = Vec::new();
    let mut k3 = c;
    while k3 < d
        invariant
            c <= k3 <= d <= rest.len(),
            inner@ == rest@.subrange(c as int, k3 as int),
        decreases d - k3,
    {
        inner.push(rest[k3]);
        assert(rest@.subrange(c as int, k3 + 1) =~= rest@.subrange(c as int, k3 as int).push(rest@[k3 as int]));
        k3 += 1;
    }
    let parts = words_of(&inner);
    let n = parts.len();
    if n < 3 {
        return None;
    }
    let version = match parse_u32_chars(&parts[n - 1]) {
        Some(v) => v,
        None => 2,
    };
    let state = string_of(&parts[n - 2]);
    let name = join_chars(&parts, n - 2, &chars_of(" "));
    if name.len() == 0 {
        return None;
    }
    proof {
        assert(views(parts@)[n - 1] == parts@[n - 1]@);
        assert(views(parts@)[n - 2] == parts@[n - 2]@);
    }
    Some(DistroInfo { name: string_of(&name), state, version, is_default })
}

/// Parses the output of `wsl -l -v` into the distributions it lists. The output is taken
/// line by line (pieces between newlines; a trailing carriage return is whitespace and
/// trimmed away).
pub fn parse_distro_list(output: &str) -> (r: Vec<DistroInfo>)
    ensures
        distro_models(r@) == parse_lines(split_on(output@, '\n')),
{
    let v = chars_of(output);
    let lines = split_chars(&v, '\n');
    let mut r: Vec<DistroInfo> = Vec::new();
    let mut i: usize = 0;
    while i < lines.len()
        invariant
            i <= lines.len(),
            views(lines@) == split_on(output@, '\n'),
            distro_models(r@) == parse_lines(views(lines@).take(i as int)),
        decreases lines.len() - i,
    {
        assert(views(lines@).take(i + 1).drop_last() =~= views(lines@).take(i as int));
        assert(views(lines@).take(i + 1).last() == lines@[i as int]@);
        match parse_line(&lines[i]) {
            Some(d) => {
                r.push(d);
                assert(distro_models(r@) =~= parse_lines(views(lines@).take(i + 1)));
            },
            None => {},
        }
        i += 1;
    }
    assert(views(lines@).take(lines.len() as int) =~= views(lines@));
    r
}

/// Whether `name` extends `want` with a version or variant suffix: it starts, ignoring ASCII
/// case, with `want` followed by `-` or `.`.
pub open spec fn is_variant_of(name: Seq<char>, want: Seq<char>) -> bool {
    starts_with(ascii_lower(name), ascii_lower(want).push('-')) || starts_with(
        ascii_lower(name),
        ascii_lower(want).push('.'),
    )
}

/// Index of the first distribution named `want` ignoring ASCII case, or -1.
pub open spec fn first_named(ds: Seq<DistroModel>, want: Seq<char>) -> int
    decreases ds.len(),
{
    if ds.len() == 0 {
        -1
    } else if first_named(ds.drop_last(), want) >= 0 {
        first_named(ds.drop_last(), want)
    } else if ascii_lower(ds.last().name) == ascii_lower(want) {
        ds.len() - 1
    } else {
        -1
    }
}

/// The variants of `want` among `ds`, in order.
pub open spec fn variants(ds: Seq<DistroModel>, want: Seq<char>) -> Seq<DistroModel> {
    ds.filter(|d: DistroModel| is_variant_of(d.name, want))
}

/// Index of the first default distribution, or -1.
pub open spec fn first_default(ds: Seq<DistroModel>) -> int
    decreases ds.len(),
{
    if ds.len() == 0 {
        -1
    } else if first_default(ds.drop_last()) >= 0 {
        first_default(ds.drop_last())
    } else if ds.last().is_default {
        ds.len() - 1
    } else {
        -1
    }
}

/// The distribution that the configured name selects among the installed ones: an exact
/// match ignoring ASCII case; else the only variant (`Ubuntu` → `Ubuntu-22.04`); else the
/// default among several variants; else the default distribution; else the only one.
pub open spec fn resolve_distro_spec(configured: Seq<char>, ds: Seq<DistroModel>) -> Option<Seq<char>> {
    let want = trim(configured);
    let vs = variants(ds, want);
    if ds.len() == 0 {
        None
    } else if want.len() > 0 && first_named(ds, want) >= 0 {
        Some(ds[first_named(ds, want)].name)
    } else if want.len() > 0 && vs.len() == 1 {
        Some(vs[0].name)
    } else if want.len() > 0 && first_default(vs) >= 0 {
        Some(vs[first_default(vs)].name)
    } else if first_default(ds) >= 0 {
        Some(ds[first_default(ds)].name)
    } else if ds.len() == 1 {
        Some(ds[0].name)
    } else {
        None
    }
}

pub proof fn lemma_first_named(ds: Seq<DistroModel>, want: Seq<char>)
    ensures
        -1 <= first_named(ds, want) < ds.len(),
        first_named(ds, want) >= 0 ==> ascii_lower(ds[first_named(ds, want)].name) == ascii_lower(want),
        forall|k: int|
            0 <= k < ds.len() && (first_named(ds, want) < 0 || k < first_named(ds, want))
                ==> ascii_lower(#[trigger] ds[k].name) != ascii_lower(want),
    decreases ds.len(),
{
    if ds.len() > 0 {
        lemma_first_named(ds.drop_last(), want);
        assert forall|k: int| 0 <= k < ds.len() - 1 implies ds.drop_last()[k] == ds[k] by {}
    }
}

pub proof fn lemma_first_default(ds: Seq<DistroModel>)
    ensures
        -1 <= first_default(ds) < ds.len(),
        first_default(ds) >= 0 ==> ds[first_default(ds)].is_default,
        forall|k: int|
            0 <= k < ds.len() && (first_default(ds) < 0 || k < first_default(ds))
                ==> !(#[trigger] ds[k].is_default),
    decreases ds.len(),
{
    if ds.len() > 0 {
        lemma_first_default(ds.drop_last());
        assert forall|k: int| 0 <= k < ds.len() - 1 implies ds.drop_last()[k] == ds[k] by {}
    }
}

/// Index of the first distribution in `ds` that is the default.
fn find_default(ds: &Vec<DistroInfo>) -> (r: Option<usize>)
    ensures
        match r {
            Some(i) => i as int == first_default(distro_models(ds@)),
            None => first_default(distro_models(ds@)) < 0,
        },
{
    let ghost m = distro_models(ds@);
    proof {
        lemma_first_default(m);
    }
    let mut i: usize = 0;
    while i < ds.len()
        invariant
            i <= ds.len(),
            m == distro_models(ds@),
            forall|k: int| 0 <= k < i ==> !(#[trigger] m[k].is_default),
        decreases ds.len() - i,
    {
        assert(m[i as int] == ds@[i as int]@);
        if ds[i].is_default {
            proof {
                lemma_first_default(m);
                assert(m.len() == ds@.len());
                assert(m[i as int].is_default);
                let p = first_default(m);
                if p < 0 {
                    assert(!m[i as int].is_default);
                } else if p < i {
                    assert(!m[p].is_default);
                } else if p > i {
                    assert(!m[i as int].is_default);
                }
            }
            return Some(i);
        }
        i += 1;
    }
    None
}

/// Whether `name` is a variant of `want`, where `want_l` is `want` lower-cased.
fn variant_test(name: &str, want_l: &Vec<char>) -> (r: bool)
    requires
        want_l@ == ascii_lower(want_l@),
    ensures
        r == (starts_with(ascii_lower(name@), want_l@.push('-')) || starts_with(
            ascii_lower(name@),
            want_l@.push('.'),
        )),
{
    let lname = lower_chars(&chars_of(name));
    let mut dash = want_l.clone();
    dash.push('-');
    let mut dot = want_l.clone();
    dot.push('.');
    chars_start_with(&lname, &dash) || chars_start_with(&lname, &dot)
}

/// Chooses the distribution that the configured name refers to, as
/// `resolve_distro_spec` states: exact name first (ignoring ASCII case), then a unique or
/// default variant, then the default distribution, then the only one.
pub fn resolve_distro(configured: &str, distros: &[DistroInfo]) -> (r: Option<String>)
    ensures
        match r {
            Some(n) => resolve_distro_spec(configured@, distro_models(distros@)) == Some(n@),
            None => resolve_distro_spec(configured@, distro_models(distros@)) is None,
        },
{
    let ghost m = distro_models(distros@);
    if distros.len() == 0 {
        return None;
    }
    let cv = chars_of(configured);
    let (a, b) = trim_bounds(&cv);
    let want = string_of_range_local(&cv, a, b);
    let ghost want_s = trim(configured@);
    assert(want@ == want_s);
    if !want.as_str().is_empty() {
        proof {
            lemma_first_named(m, want_s);
        }
        let mut i: usize = 0;
        while i < distros.len()
            invariant
                i <= distros.len(),
                m == distro_models(distros@),
                want@ == want_s,
                want_s == trim(configured@),
                want_s.len() > 0,
                distros@.len() > 0,
                forall|k: int| 0 <= k < i ==> ascii_lower(#[trigger] m[k].name) != ascii_lower(want_s),
            decreases distros.len() - i,
        {
            assert(m[i as int] == distros@[i as int]@);
            if eq_ignore_ascii_case(distros[i].name.as_str(), want.as_str()) {
                proof {
                    lemma_first_named(m, want_s);
                    assert(m.len() == distros@.len());
                    assert(ascii_lower(m[i as int].name) == ascii_lower(want_s));
                    let p = first_named(m, want_s);
                    if p < 0 {
                        assert(ascii_lower(m[i as int].name) != ascii_lower(want_s));
                    } else if p < i {
                        assert(ascii_lower(m[p].name) != ascii_lower(want_s));
                    } else if p > i {
                        assert(ascii_lower(m[i as int].name) != ascii_lower(want_s));
                    }
                    assert(resolve_distro_spec(configured@, m) == Some(m[i as int].name));
                }
                return Some(distros[i].name.clone());
            }
            i += 1;
        }
        proof {
            lemma_first_named(m, want_s);
        }
        assert(first_named(m, want_s) < 0);
        let want_l = lower_chars(&chars_of(want.as_str()));
        assert(ascii_lower(want_l@) =~= want_l@);
        let mut fuzzy: Vec<usize> = Vec::new();
        let mut j: usize = 0;
        while j < distros.len()
            invariant
                j <= distros.len(),
                m == distro_models(distros@),
                want_l@ == ascii_lower(want_s),
                want_l@ == ascii_lower(want_l@),
                fuzzy@.len() == variants(m.take(j as int), want_s).len(),
                forall|k: int| 0 <= k < fuzzy@.len() ==> #[trigger] fuzzy@[k] < distros.len() && m[fuzzy@[k] as int] == variants(m.take(j as int), want_s)[k],
            decreases distros.len() - j,
        {
            assert(m.take(j + 1).drop_last() =~= m.take(j as int));
            assert(m[j as int] == distros@[j as int]@);
            assert(m.take(j + 1).last() == m[j as int]);
            let hit = variant_test(distros[j].name.as_str(), &want_l);
            proof {
                reveal(Seq::<DistroModel>::filter);
            }
            if hit {
                fuzzy.push(j);
            }
            assert(variants(m.take(j + 1), want_s) == if is_variant_of(m[j as int].name, want_s) {
                variants(m.take(j as int), want_s).push(m[j as int])
            } else {
                variants(m.take(j as int), want_s)
            });
            j += 1;
        }
        assert(m.take(distros.len() as int) =~= m);
        let ghost vs = variants(m, want_s);
        if fuzzy.len() == 1 {
            assert(m[fuzzy@[0] as int] == distros@[fuzzy@[0] as int]@);
            return Some(distros[fuzzy[0]].name.clone());
        }
        proof {
            lemma_first_default(vs);
        }
        let mut k: usize = 0;
        while k < fuzzy.len()
            invariant
                k <= fuzzy.len(),
                m == distro_models(distros@),
                vs == variants(m, want_s),
                want_s == trim(configured@),
                want_s.len() > 0,
                distros@.len() > 0,
                first_named(m, want_s) < 0,
                vs.len() != 1,
                fuzzy@.len() == vs.len(),
                forall|q: int| 0 <= q < fuzzy@.len() ==> #[trigger] fuzzy@[q] < distros.len() && m[fuzzy@[q] as int] == vs[q],
                forall|q: int| 0 <= q < k ==> !(#[trigger] vs[q].is_default),
            decreases fuzzy.len() - k,
        {
            let idx = fuzzy[k];
            assert(m[idx as int] == distros@[idx as int]@);
            if distros[idx].is_default {
                proof {
                    lemma_first_default(vs);
                    assert(vs[k as int].is_default);
                    let p = first_default(vs);
                    if p < 0 {
                        assert(!vs[k as int].is_default);
                    } else if p < k {
                        assert(!vs[p].is_default);
                    } else if p > k {
                        assert(!vs[k as int].is_default);
                    }
                    assert(resolve_distro_spec(configured@, m) == Some(vs[k as int].name));
                }
                return Some(distros[idx].name.clone());
            }
            k += 1;
        }
    }
    let dv = distros_to_vec(distros);
    match find_default(&dv) {
        Some(i) => {
            proof {
                lemma_first_default(m);
                assert(m.len() == dv@.len());
                assert(distro_models(dv@)[i as int] == dv@[i as int]@);
            }
            Some(dv[i].name.clone())
        },
        None => {
            if distros.len() == 1 {
                assert(m[0] == distros@[0]@);
                Some(distros[0].name.clone())
            } else {
                None
            }
        },
    }
}

/// A copy of a list of distributions.
fn distros_to_vec(ds: &[DistroInfo]) -> (r: Vec<DistroInfo>)
    ensures
        distro_models(r@) == distro_models(ds@),
{
    let mut r: Vec<DistroInfo> = Vec::new();
    let mut i: usize = 0;
    while i < ds.len()
        invariant
            i <= ds.len(),
            r@ == ds@.take(i as int),
        decreases ds.len() - i,
    {
        let d = &ds[i];
        r.push(DistroInfo {
            name: d.name.clone(),
            state: d.state.clone(),
            version: d.version,
            is_default: d.is_default,
        });
        assert(r@ =~= ds@.take(i + 1));
        i += 1;
    }
    assert(ds@.take(ds.len() as int) =~= ds@);
    r
}

/// A `String` holding `v[lo..hi]`.
fn string_of_range_local(v: &Vec<char>, lo: usize, hi: usize) -> (s: String)
    requires
        lo <= hi <= v.len(),
    ensures
        s@ == v@.subrange(lo as int, hi as int),
{
    crate::text::string_of_range(v, lo, hi)
}

/// The little-endian UTF-16 code units of `b`; a trailing odd byte is dropped.
pub open spec fn le_units(b: Seq<u8>) -> Seq<u16> {
    Seq::new(b.len() / 2, |i: int| (b[2 * i] + b[2 * i + 1] * 256) as u16)
}

/// The big-endian UTF-16 code units of `b`; a trailing odd byte is dropped.
pub open spec fn be_units(b: Seq<u8>) -> Seq<u16> {
    Seq::new(b.len() / 2, |i: int| (b[2 * i] * 256 + b[2 * i + 1]) as u16)
}

/// How many bytes at odd positions of `b` are zero.
pub open spec fn odd_zeros(b: Seq<u8>) -> nat
    decreases b.len(),
{
    if b.len() == 0 {
        0
    } else {
        odd_zeros(b.drop_last()) + if (b.len() - 1) % 2 == 1 && b.last() == 0 {
            1nat
        } else {
            0nat
        }
    }
}

/// Whether `b` looks like UTF-16LE text without a byte-order mark: at least 8 bytes, an
/// even count, and zeros in at least half of the high bytes.
pub open spec fn utf16_le_guess(b: Seq<u8>) -> bool {
    b.len() >= 8 && b.len() % 2 == 0 && odd_zeros(b) * 2 >= b.len() / 2
}

/// How `wsl.exe` output decodes: UTF-16 after a byte-order mark, UTF-16LE when it looks so,
/// UTF-8 (lossily) otherwise.
pub open spec fn decode_spec(b: Seq<u8>) -> Seq<char> {
    if b.len() >= 2 && b[0] == 0xFF && b[1] == 0xFE {
        utf16_lossy(le_units(b.skip(2)))
    } else if b.len() >= 2 && b[0] == 0xFE && b[1] == 0xFF {
        utf16_lossy(be_units(b.skip(2)))
    } else if utf16_le_guess(b) {
        utf16_lossy(le_units(b))
    } else {
        utf8_lossy(b)
    }
}

/// Whether `bytes` looks like UTF-16LE text.
pub fn looks_like_utf16_le(bytes: &[u8]) -> (r: bool)
    ensures
        r == utf16_le_guess(bytes@),
{
    if bytes.len() < 8 || bytes.len() % 2 != 0 {
        return false;
    }
    let mut zeros: usize = 0;
    let mut i: usize = 0;
    while i < bytes.len()
        invariant
            i <= bytes.len(),
            zeros == odd_zeros(bytes@.take(i as int)),
            zeros * 2 <= i,
        decreases bytes.len() - i,
    {
        assert(bytes@.take(i + 1).drop_last() =~= bytes@.take(i as int));
        if i % 2 == 1 && bytes[i] == 0 {
            zeros += 1;
        }
        i += 1;
    }
    assert(bytes@.take(bytes.len() as int) =~= bytes@);
    zeros * 2 >= bytes.len() / 2
}

/// The code units of `bytes[start..]`, read little- or big-endian.
fn units_from(bytes: &[u8], start: usize, little: bool) -> (r: Vec<u16>)
    requires
        start <= bytes.len(),
    ensures
        little ==> r@ == le_units(bytes@.skip(start as int)),
        !little ==> r@ == be_units(bytes@.skip(start as int)),
{
    let ghost b = bytes@.skip(start as int);
    let n = (bytes.len() - start) / 2;
    let mut r: Vec<u16> = Vec::new();
    let mut i: usize = 0;
    while i < n
        invariant
            i <= n == (bytes.len() - start) / 2,
            start <= bytes.len(),
            b == bytes@.skip(start as int),
            r@.len() == i,
            forall|k: int| 0 <= k < i ==> #[trigger] r@[k] == if little {
                (b[2 * k] + b[2 * k + 1] * 256) as u16
            } else {
                (b[2 * k] * 256 + b[2 * k + 1]) as u16
            },
        decreases n - i,
    {
        let lo = bytes[start + 2 * i];
        let hi = bytes[start + 2 * i + 1];
        assert(b[2 * i as int] == lo && b[2 * i + 1] == hi);
        let u: u16 = if little {
            (lo as u16) + (hi as u16) * 256
        } else {
            (lo as u16) * 256 + (hi as u16)
        };
        r.push(u);
        i += 1;
    }
    proof {
        if little {
            assert(r@ =~= le_units(b));
        } else {
            assert(r@ =~= be_units(b));
        }
    }
    r
}

/// UTF-16LE decoding of `bytes`, with invalid data replaced.
pub fn utf16_le(bytes: &[u8]) -> (r: String)
    ensures
        r@ == utf16_lossy(le_units(bytes@)),
{
    let units = units_from(bytes, 0, true);
    assert(bytes@.skip(0) =~= bytes@);
    from_utf16_lossy(units.as_slice())
}

/// UTF-16BE decoding of `bytes`, with invalid data replaced.
pub fn utf16_be(bytes: &[u8]) -> (r: String)
    ensures
        r@ == utf16_lossy(be_units(bytes@)),
{
    let units = units_from(bytes, 0, false);
    assert(bytes@.skip(0) =~= bytes@);
    from_utf16_lossy(units.as_slice())
}

/// The little-endian bytes of UTF-16 code units.
pub open spec fn le_bytes(u: Seq<u16>) -> Seq<u8> {
    Seq::new(2 * u.len(), |i: int| if i % 2 == 0 {
        (u[i / 2] % 256) as u8
    } else {
        (u[i / 2] / 256) as u8
    })
}

/// A text written as UTF-16LE after its byte-order mark.
pub open spec fn utf16_le_with_bom(s: Seq<char>) -> Seq<u8> {
    seq![0xFFu8, 0xFEu8] + le_bytes(utf16_encode(s))
}

/// Reading back the code units of their little-endian bytes gives them again.
proof fn lemma_le_bytes_units(u: Seq<u16>)
    ensures
        le_bytes(u).len() == 2 * u.len(),
        le_units(le_bytes(u)) == u,
        forall|i: int| 0 <= i < u.len() ==> #[trigger] le_bytes(u)[2 * i] == u[i] % 256,
        forall|i: int| 0 <= i < u.len() ==> #[trigger] le_bytes(u)[2 * i + 1] == u[i] / 256,
{
    let b = le_bytes(u);
    assert forall|i: int| 0 <= i < u.len() implies #[trigger] b[2 * i] == u[i] % 256 && b[2 * i + 1]
        == u[i] / 256 by {
        assert((2 * i) % 2 == 0 && (2 * i) / 2 == i);
        assert((2 * i + 1) % 2 == 1 && (2 * i + 1) / 2 == i);
    }
    assert forall|i: int| 0 <= i < u.len() implies #[trigger] le_units(b)[i] == u[i] by {
        assert(b[2 * i] == u[i] % 256 && b[2 * i + 1] == u[i] / 256);
        assert(b[2 * i] + b[2 * i + 1] * 256 == u[i]);
    }
    assert(le_units(b) =~= u);
}

/// An ASCII text encodes in UTF-16 as one unit per character, each below 128.
proof fn lemma_ascii_utf16(s: Seq<char>)
    requires
        is_ascii_chars(s),
    ensures
        utf16_encode(s).len() == s.len(),
        forall|i: int| 0 <= i < s.len() ==> #[trigger] utf16_encode(s)[i] == s[i] as u16 && utf16_encode(s)[i] < 128,
    decreases s.len(),
{
    if s.len() > 0 {
        let t = s.drop_last();
        assert(is_ascii_chars(t)) by {
            assert forall|i: int| 0 <= i < t.len() implies '\0' <= #[trigger] t[i] <= '\u{7f}' by {
                assert(t[i] == s[i]);
            }
        }
        lemma_ascii_utf16(t);
        assert(s[s.len() - 1] <= '\u{7f}');
        assert(char_utf16(s.last()) =~= seq![s.last() as u16]);
        assert forall|i: int| 0 <= i < s.len() implies #[trigger] utf16_encode(s)[i] == s[i] as u16
            && utf16_encode(s)[i] < 128 by {
            if i < s.len() - 1 {
                assert(t[i] == s[i]);
            }
        }
    }
}

/// When every high (odd-position) byte is zero, half the bytes count as zero high bytes.
proof fn lemma_odd_zeros_all(b: Seq<u8>)
    requires
        forall|i: int| 0 <= i < b.len() && i % 2 == 1 ==> #[trigger] b[i] == 0,
    ensures
        odd_zeros(b) == b.len() / 2,
    decreases b.len(),
{
    if b.len() > 0 {
        let t = b.drop_last();
        assert forall|i: int| 0 <= i < t.len() && i % 2 == 1 implies #[trigger] t[i] == 0 by {
            assert(t[i] == b[i]);
        }
        lemma_odd_zeros_all(t);
    }
}

/// Without zero bytes there are no zero high bytes.
proof fn lemma_odd_zeros_none(b: Seq<u8>)
    requires
        forall|i: int| 0 <= i < b.len() ==> #[trigger] b[i] != 0,
    ensures
        odd_zeros(b) == 0,
    decreases b.len(),
{
    if b.len() > 0 {
        let t = b.drop_last();
        assert forall|i: int| 0 <= i < t.len() implies #[trigger] t[i] != 0 by {
            assert(t[i] == b[i]);
        }
        lemma_odd_zeros_none(t);
    }
}

/// The facts about the three kinds of well-formed input that `decode_wsl_output` reads back.
proof fn lemma_decode_inputs(s: Seq<char>)
    ensures
        ({
            let b = utf16_le_with_bom(s);
            &&& b.len() >= 2 && b[0] == 0xFF && b[1] == 0xFE
            &&& le_units(b.skip(2)) == utf16_encode(s)
        }),
        is_ascii_chars(s) && s.len() >= 4 ==> ({
            let b = le_bytes(utf16_encode(s));
            &&& b.len() >= 2 && b[0] < 128
            &&& utf16_le_guess(b)
            &&& le_units(b) == utf16_encode(s)
        }),
        is_ascii_chars(s) && (forall|i: int| 0 <= i < s.len() ==> #[trigger] s[i] != '\0') ==> ({
            let b = encode_utf8(s);
            &&& (b.len() >= 2 ==> b[0] < 128)
            &&& !utf16_le_guess(b)
            &&& valid_utf8(b)
            &&& decode_utf8(b) == s
        }),
{
    let u = utf16_encode(s);
    lemma_le_bytes_units(u);
    assert(utf16_le_with_bom(s).skip(2) =~= le_bytes(u));
    if is_ascii_chars(s) {
        lemma_ascii_utf16(s);
        if s.len() >= 4 {
            let b = le_bytes(u);
            assert forall|i: int| 0 <= i < b.len() && i % 2 == 1 implies #[trigger] b[i] == 0 by {
                let k = i / 2;
                assert(i == 2 * k + 1);
                assert(b[2 * k + 1] == u[k] / 256);
            }
            lemma_odd_zeros_all(b);
            assert(b[2 * 0int] == u[0] % 256);
        }
        if forall|i: int| 0 <= i < s.len() ==> #[trigger] s[i] != '\0' {
            let b = encode_utf8(s);
            is_ascii_chars_encode_utf8(s);
            encode_utf8_valid_utf8(s);
            encode_utf8_decode_utf8(s);
            assert forall|i: int| 0 <= i < b.len() implies #[trigger] b[i] != 0 by {
                assert(s[i] as u8 == b[i]);
                assert(s[i] != '\0');
                assert('\0' <= s[i] <= '\u{7f}');
            }
            lemma_odd_zeros_none(b);
            if b.len() >= 2 {
                assert(s[0] as u8 == b[0]);
                assert(s[0] <= '\u{7f}');
            }
        }
    }
}

/// Decodes the output of `wsl.exe`, which writes UTF-16LE for its own messages and passes
/// through whatever the Linux side writes. Text written as UTF-16LE after a byte-order mark,
/// an ASCII text of at least four characters written as UTF-16LE without one, and an ASCII
/// text without NUL written as UTF-8 all decode back to that text.
pub fn decode_wsl_output(bytes: &[u8]) -> (r: String)
    ensures
        r@ == decode_spec(bytes@),
        forall|s: Seq<char>| bytes@ == #[trigger] utf16_le_with_bom(s) ==> r@ == s,
        forall|s: Seq<char>|
            is_ascii_chars(s) && s.len() >= 4 && bytes@ == #[trigger] le_bytes(utf16_encode(s)) ==> r@ == s,
        forall|s: Seq<char>|
            is_ascii_chars(s) && (forall|i: int| 0 <= i < s.len() ==> s[i] != '\0') && bytes@
                == #[trigger] encode_utf8(s) ==> r@ == s,
{
    if bytes.len() >= 2 && bytes[0] == 0xFF && bytes[1] == 0xFE {
        let units = units_from(bytes, 2, true);
        let r = from_utf16_lossy(units.as_slice());
        proof {
            assert forall|s: Seq<char>| bytes@ == #[trigger] utf16_le_with_bom(s) implies r@ == s by {
                lemma_decode_inputs(s);
                assert(utf16_encode(s) == units@);
            }
            assert forall|s: Seq<char>|
                is_ascii_chars(s) && s.len() >= 4 && bytes@ == #[trigger] le_bytes(utf16_encode(s))
                implies r@ == s by {
                lemma_decode_inputs(s);
            }
            assert forall|s: Seq<char>|
                is_ascii_chars(s) && (forall|i: int| 0 <= i < s.len() ==> s[i] != '\0') && bytes@
                    == #[trigger] encode_utf8(s) implies r@ == s by {
                lemma_decode_inputs(s);
            }
        }
        return r;
    }
    if bytes.len() >= 2 && bytes[0] == 0xFE && bytes[1] == 0xFF {
        let units = units_from(bytes, 2, false);
        let r = from_utf16_lossy(units.as_slice());
        proof {
            assert forall|s: Seq<char>| bytes@ == #[trigger] utf16_le_with_bom(s) implies r@ == s by {
                lemma_decode_inputs(s);
            }
            assert forall|s: Seq<char>|
                is_ascii_chars(s) && s.len() >= 4 && bytes@ == #[trigger] le_bytes(utf16_encode(s))
                implies r@ == s by {
                lemma_decode_inputs(s);
            }
            assert forall|s: Seq<char>|
                is_ascii_chars(s) && (forall|i: int| 0 <= i < s.len() ==> s[i] != '\0') && bytes@
                    == #[trigger] encode_utf8(s) implies r@ == s by {
                lemma_decode_inputs(s);
            }
        }
        return r;
    }
    if looks_like_utf16_le(bytes) {
        let units = units_from(bytes, 0, true);
        assert(bytes@.skip(0) =~= bytes@);
        let r = from_utf16_lossy(units.as_slice());
        proof {
            assert forall|s: Seq<char>| bytes@ == #[trigger] utf16_le_with_bom(s) implies r@ == s by {
                lemma_decode_inputs(s);
            }
            assert forall|s: Seq<char>|
                is_ascii_chars(s) && s.len() >= 4 && bytes@ == #[trigger] le_bytes(utf16_encode(s))
                implies r@ == s by {
                lemma_decode_inputs(s);
                assert(utf16_encode(s) == units@);
            }
            assert forall|s: Seq<char>|
                is_ascii_chars(s) && (forall|i: int| 0 <= i < s.len() ==> s[i] != '\0') && bytes@
                    == #[trigger] encode_utf8(s) implies r@ == s by {
                lemma_decode_inputs(s);
            }
        }
        return r;
    }
    let r = from_utf8_lossy(bytes);
    proof {
        assert forall|s: Seq<char>| bytes@ == #[trigger] utf16_le_with_bom(s) implies r@ == s by {
            lemma_decode_inputs(s);
        }
        assert forall|s: Seq<char>|
            is_ascii_chars(s) && s.len() >= 4 && bytes@ == #[trigger] le_bytes(utf16_encode(s))
            implies r@ == s by {
            lemma_decode_inputs(s);
        }
        assert forall|s: Seq<char>|
            is_ascii_chars(s) && (forall|i: int| 0 <= i < s.len() ==> s[i] != '\0') && bytes@
                == #[trigger] encode_utf8(s) implies r@ == s by {
            lemma_decode_inputs(s);
        }
    }
    r
}

/// The arguments of `wsl.exe` that run `command` in distribution `name`: as root when asked,
/// through a login `bash -lc` or a plain `/bin/sh -c`.
pub open spec fn exec_args_spec(name: Seq<char>, command: Seq<char>, as_root: bool, login_bash: bool) -> Seq<Seq<char>> {
    seq!["-d"@, name] + (if as_root {
        seq!["-u"@, "root"@]
    } else {
        Seq::<Seq<char>>::empty()
    }) + (if login_bash {
        seq!["--"@, "bash"@, "-lc"@, command]
    } else {
        seq!["--exec"@, "/bin/sh"@, "-c"@, command]
    })
}

/// The texts of a list of strings.
pub open spec fn arg_views(v: Seq<String>) -> Seq<Seq<char>> {
    v.map_values(|s: String| s@)
}

/// The `wsl.exe` arguments for running `command` in `name`.
pub fn exec_args(name: &str, command: &str, as_root: bool, login_bash: bool) -> (r: Vec<String>)
    ensures
        arg_views(r@) == exec_args_spec(name@, command@, as_root, login_bash),
{
    let mut r: Vec<String> = Vec::new();
    r.push(String::from_str("-d"));
    r.push(String::from_str(name));
    if as_root {
        r.push(String::from_str("-u"));
        r.push(String::from_str("root"));
    }
    if login_bash {
        r.push(String::from_str("--"));
        r.push(String::from_str("bash"));
        r.push(String::from_str("-lc"));
        r.push(String::from_str(command));
    } else {
        r.push(String::from_str("--exec"));
        r.push(String::from_str("/bin/sh"));
        r.push(String::from_str("-c"));
        r.push(String::from_str(command));
    }
    assert(arg_views(r@) =~= exec_args_spec(name@, command@, as_root, login_bash));
    r
}

/// The error of a failed command inside WSL: the exit status and the trimmed standard error,
/// or the trimmed standard output when standard error is empty.
pub open spec fn exec_failure_spec(status: Seq<char>, stderr: Seq<char>, stdout: Seq<char>) -> Seq<char> {
    "WSL exec failed ("@ + status + "): "@ + if trim(stderr).len() > 0 {
        trim(stderr)
    } else {
        trim(stdout)
    }
}

/// The error message for a command that failed inside WSL.
pub fn exec_failure_message(status: &str, stderr: &str, stdout: &str) -> (r: String)
    ensures
        r@ == exec_failure_spec(status@, stderr@, stdout@),
{
    let e = crate::text::trimmed(stderr);
    let detail = if e.as_str().is_empty() {
        crate::text::trimmed(stdout)
    } else {
        e
    };
    let mut out = chars_of("WSL exec failed (");
    crate::text::append_chars(&mut out, &chars_of(status));
    crate::text::append_chars(&mut out, &chars_of("): "));
    crate::text::append_chars(&mut out, &chars_of(detail.as_str()));
    string_of(&out)
}

/// The variants among the first `n` distributions, when `ds[k]` is the only variant.
proof fn lemma_single_variant(ds: Seq<DistroModel>, want: Seq<char>, k: int, n: int)
    requires
        0 <= k < ds.len(),
        0 <= n <= ds.len(),
        is_variant_of(ds[k].name, want),
        forall|j: int| 0 <= j < ds.len() && j != k ==> !is_variant_of(#[trigger] ds[j].name, want),
    ensures
        variants(ds.take(n), want) == (if n > k {
            seq![ds[k]]
        } else {
            Seq::<DistroModel>::empty()
        }),
    decreases n,
{
    reveal(Seq::filter);
    if n == 0 {
        assert(ds.take(0) =~= Seq::<DistroModel>::empty());
    } else {
        lemma_single_variant(ds, want, k, n - 1);
        assert(ds.take(n).drop_last() =~= ds.take(n - 1));
        assert(ds.take(n).last() == ds[n - 1]);
        if n - 1 == k {
            assert(Seq::<DistroModel>::empty().push(ds[k]) =~= seq![ds[k]]);
        }
    }
}

/// Resolving a configured name: an installed name equal to it (after trimming, ignoring
/// ASCII case) is chosen, the first such; failing that, when exactly one installed name
/// extends it with `-` or `.` (a version such as `Ubuntu-22.04`), that name is chosen,
/// whatever the default distribution is.
pub proof fn lemma_resolve_exact_then_unique_variant(configured: Seq<char>, ds: Seq<DistroModel>, k: int)
    requires
        0 <= k < ds.len(),
        trim(configured).len() > 0,
    ensures
        ascii_lower(ds[k].name) == ascii_lower(trim(configured)) && (forall|j: int|
            0 <= j < k ==> ascii_lower(#[trigger] ds[j].name) != ascii_lower(trim(configured)))
            ==> resolve_distro_spec(configured, ds) == Some(ds[k].name),
        (forall|j: int| 0 <= j < ds.len() ==> ascii_lower(#[trigger] ds[j].name) != ascii_lower(trim(configured)))
            && (starts_with(ascii_lower(ds[k].name), ascii_lower(trim(configured)).push('-'))
            || starts_with(ascii_lower(ds[k].name), ascii_lower(trim(configured)).push('.')))
            && (forall|j: int|
            0 <= j < ds.len() && j != k ==> !starts_with(ascii_lower(#[trigger] ds[j].name), ascii_lower(trim(configured)).push('-'))
                && !starts_with(ascii_lower(ds[j].name), ascii_lower(trim(configured)).push('.')))
            ==> resolve_distro_spec(configured, ds) == Some(ds[k].name),
{
    let want = trim(configured);
    lemma_first_named(ds, want);
    if (forall|j: int| 0 <= j < ds.len() ==> ascii_lower(#[trigger] ds[j].name) != ascii_lower(want))
        && is_variant_of(ds[k].name, want)
        && (forall|j: int| 0 <= j < ds.len() && j != k ==> !is_variant_of(#[trigger] ds[j].name, want)) {
        lemma_single_variant(ds, want, k, ds.len() as int);
        assert(ds.take(ds.len() as int) =~= ds);
        assert(first_named(ds, want) < 0);
    }
}

/// Resolving a name that resolution produced gives it back, when the installed names are
/// trimmed, non-empty and distinct ignoring ASCII case (as `parse_distro_list` yields them):
/// once the configured distro has been resolved, resolving it again changes nothing.
pub proof fn lemma_resolve_stable(configured: Seq<char>, ds: Seq<DistroModel>, r: Seq<char>)
    requires
        resolve_distro_spec(configured, ds) == Some(r),
        forall|i: int| 0 <= i < ds.len() ==> trim(#[trigger] ds[i].name) == ds[i].name && ds[i].name.len() > 0,
        forall|i: int, j: int|
            0 <= i < ds.len() && 0 <= j < ds.len() && i != j ==> ascii_lower(#[trigger] ds[i].name)
                != ascii_lower(#[trigger] ds[j].name),
    ensures
        resolve_distro_spec(r, ds) == Some(r),
{
    let want = trim(configured);
    let vs = variants(ds, want);
    lemma_first_named(ds, want);
    lemma_first_default(ds);
    lemma_first_default(vs);
    ds.filter_lemma(|d: DistroModel| is_variant_of(d.name, want));
    let j: int = if want.len() > 0 && first_named(ds, want) >= 0 {
        first_named(ds, want)
    } else if want.len() > 0 && vs.len() == 1 {
        assert(vs.contains(vs[0]));
        ds.lemma_filter_contains_rev(|d: DistroModel| is_variant_of(d.name, want), vs[0]);
        choose|j: int| 0 <= j < ds.len() && ds[j] == vs[0]
    } else if want.len() > 0 && first_default(vs) >= 0 {
        let q = first_default(vs);
        assert(vs.contains(vs[q]));
        ds.lemma_filter_contains_rev(|d: DistroModel| is_variant_of(d.name, want), vs[q]);
        choose|j: int| 0 <= j < ds.len() && ds[j] == vs[q]
    } else if first_default(ds) >= 0 {
        first_default(ds)
    } else {
        0
    };
    assert(0 <= j < ds.len() && ds[j].name == r);
    assert(trim(r) == r);
    lemma_first_named(ds, r);
    let p = first_named(ds, r);
    if p < 0 {
        assert(ascii_lower(ds[j].name) != ascii_lower(r));
    }
    assert(p >= 0);
    if p != j {
        assert(ascii_lower(ds[p].name) == ascii_lower(r));
        assert(ascii_lower(ds[p].name) != ascii_lower(ds[j].name));
    }
}

} // verus!
