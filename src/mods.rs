use vstd::prelude::*;
use std::cmp::Ordering;
use crate::mod_config::{ModEntry, ModEntryV};
use crate::number::{nat_text, push_nat_text};
use crate::text::{chars_of, split, split_chars, string_of, trim, trim_chars};
use crate::thunderstore::PackageVersion;

verus! {

/// Whether semver's `Version::parse` accepts a text.
pub uninterp spec fn semver_accepts(s: Seq<char>) -> bool;

/// How semver's `Version` orders the versions that two accepted texts denote.
pub uninterp spec fn semver_order(a: Seq<char>, b: Seq<char>) -> Ordering;

/// Relies on `semver::Version::parse`: whether the text is a semantic
/// version; the answer depends on the text alone.
#[verifier::external_body]
fn semver_parses(s: &str) -> (r: bool)
    ensures
        r == semver_accepts(s@),
{
    semver::Version::parse(s).is_ok()
}

/// Relies on the `Ord` that `semver::Version` derives, applied to the
/// versions that `Version::parse` reads from the two texts.
#[verifier::external_body]
fn semver_compare(a: &str, b: &str) -> (r: Ordering)
    requires
        semver_accepts(a@),
        semver_accepts(b@),
    ensures
        r == semver_order(a@, b@),
{
    semver::Version::parse(a).unwrap().cmp(&semver::Version::parse(b).unwrap())
}

/// `s` without its leading `v`s.
pub open spec fn strip_vs(s: Seq<char>) -> Seq<char>
    decreases s.len(),
{
    if s.len() > 0 && s[0] == 'v' {
        strip_vs(s.skip(1))
    } else {
        s
    }
}

/// The text that reads as a semantic version once trimmed, stripped of a
/// leading `v` and, for one or two numbers, padded with `.0`; None where
/// there is none.
pub open spec fn loose_version(s: Seq<char>) -> Option<Seq<char>> {
    let t = strip_vs(trim(s));
    let n = split(t, seq!['.']).len();
    let padded = if n == 1 {
        t + ".0.0"@
    } else if n == 2 {
        t + ".0"@
    } else {
        t
    };
    if semver_accepts(t) {
        Some(t)
    } else if semver_accepts(padded) {
        Some(padded)
    } else {
        None
    }
}

/// The order of two texts by their characters (for UTF-8 the same as by bytes).
pub open spec fn text_order(a: Seq<char>, b: Seq<char>) -> Ordering
    decreases a.len(),
{
    if a.len() == 0 && b.len() == 0 {
        Ordering::Equal
    } else if a.len() == 0 {
        Ordering::Less
    } else if b.len() == 0 {
        Ordering::Greater
    } else if a[0] < b[0] {
        Ordering::Less
    } else if a[0] > b[0] {
        Ordering::Greater
    } else {
        text_order(a.skip(1), b.skip(1))
    }
}

/// How two version texts are ordered: as semantic versions where both read
/// as one, a readable one above an unreadable one, and otherwise as text.
pub open spec fn version_order(a: Seq<char>, b: Seq<char>) -> Ordering {
    match (loose_version(a), loose_version(b)) {
        (Some(x), Some(y)) => semver_order(x, y),
        (Some(_), None) => Ordering::Greater,
        (None, Some(_)) => Ordering::Less,
        (None, None) => text_order(a, b),
    }
}

/// The text that reads as a semantic version, as `loose_version` says.
pub fn parse_semver_loose(s: &str) -> (r: Option<String>)
    ensures
        match r {
            Some(t) => loose_version(s@) == Some(t@),
            None => loose_version(s@) is None,
        },
{
    let t0 = trim_chars(&chars_of(s));
    let mut a: usize = 0;
    assert(t0@.skip(0) == t0@);
    while a < t0.len() && t0[a] == 'v'
        invariant
            a <= t0.len(),
            strip_vs(t0@) == strip_vs(t0@.skip(a as int)),
        decreases t0.len() - a,
    {
        assert(t0@.skip(a as int).skip(1) == t0@.skip(a + 1));
        a += 1;
    }
    let t = crate::text::slice_chars(&t0, a, t0.len());
    assert(t@ == t0@.skip(a as int));
    let ts = string_of(&t);
    if semver_parses(ts.as_str()) {
        return Some(ts);
    }
    let dot: Vec<char> = vec!['.'];
    let n = split_chars(&t, &dot).len();
    assert(dot@ == seq!['.']);
    let mut padded = t.clone();
    if n == 1 {
        let mut tail = chars_of(".0.0");
        padded.append(&mut tail);
    } else if n == 2 {
        let mut tail = chars_of(".0");
        padded.append(&mut tail);
    }
    let ps = string_of(&padded);
    if semver_parses(ps.as_str()) {
        Some(ps)
    } else {
        None
    }
}

/// The order of two texts by their characters.
pub fn compare_text(a: &[char], b: &[char]) -> (r: Ordering)
    ensures
        r == text_order(a@, b@),
{
    let mut i: usize = 0;
    assert(a@.skip(0) == a@);
    assert(b@.skip(0) == b@);
    while i < a.len() && i < b.len() && a[i] == b[i]
        invariant
            i <= a.len(),
            i <= b.len(),
            text_order(a@, b@) == text_order(a@.skip(i as int), b@.skip(i as int)),
        decreases a.len() - i,
    {
        assert(a@.skip(i as int).skip(1) == a@.skip(i + 1));
        assert(b@.skip(i as int).skip(1) == b@.skip(i + 1));
        i += 1;
    }
    if i == a.len() && i == b.len() {
        Ordering::Equal
    } else if i == a.len() {
        Ordering::Less
    } else if i == b.len() {
        Ordering::Greater
    } else if a[i] < b[i] {
        Ordering::Less
    } else {
        Ordering::Greater
    }
}

/// How two version texts are ordered, as `version_order` says.
pub fn cmp_version_str(a: &str, b: &str) -> (r: Ordering)
    ensures
        r == version_order(a@, b@),
{
    match (parse_semver_loose(a), parse_semver_loose(b)) {
        (Some(va), Some(vb)) => semver_compare(va.as_str(), vb.as_str()),
        (Some(_), None) => Ordering::Greater,
        (None, Some(_)) => Ordering::Less,
        (None, None) => compare_text(&chars_of(a), &chars_of(b)),
    }
}

/// The position of the greatest version among the first `n`, later ones
/// winning ties, as `Iterator::max_by` picks it.
pub open spec fn latest_index(vs: Seq<PackageVersion>, n: int) -> int
    decreases n,
{
    if n <= 1 {
        0
    } else {
        let best = latest_index(vs, n - 1);
        if version_order(vs[best].version_number@, vs[n - 1].version_number@) == Ordering::Greater {
            best
        } else {
            n - 1
        }
    }
}

proof fn lemma_latest_index(vs: Seq<PackageVersion>, n: int)
    requires
        1 <= n <= vs.len(),
    ensures
        0 <= latest_index(vs, n) < n,
    decreases n,
{
    if n > 1 {
        lemma_latest_index(vs, n - 1);
    }
}

/// The greatest published version, the last of equals; None for no versions.
pub fn latest_pkg_version(versions: &[PackageVersion]) -> (r: Option<&PackageVersion>)
    ensures
        match r {
            Some(p) => versions.len() > 0 && *p == versions@[latest_index(versions@, versions.len() as int)],
            None => versions.len() == 0,
        },
{
    if versions.len() == 0 {
        return None;
    }
    let mut best: usize = 0;
    let mut i: usize = 1;
    while i < versions.len()
        invariant
            1 <= i <= versions.len(),
            best == latest_index(versions@, i as int),
            best < i,
        decreases versions.len() - i,
    {
        let c = cmp_version_str(versions[best].version_number.as_str(), versions[i].version_number.as_str());
        match c {
            Ordering::Greater => {},
            _ => {
                best = i;
            },
        }
        i += 1;
    }
    Some(&versions[best])
}

/// The direct download address of a package version.
pub fn thunderstore_download_url(dev: &str, name: &str, version: &str) -> (r: String)
    ensures
        r@ == "https://thunderstore.io/package/download/"@ + dev@ + "/"@ + name@ + "/"@ + version@
            + "/"@,
{
    let mut out = chars_of("https://thunderstore.io/package/download/");
    let mut d = chars_of(dev);
    out.append(&mut d);
    let mut s1 = chars_of("/");
    out.append(&mut s1);
    let mut n = chars_of(name);
    out.append(&mut n);
    let mut s2 = chars_of("/");
    out.append(&mut s2);
    let mut v = chars_of(version);
    out.append(&mut v);
    let mut s3 = chars_of("/");
    out.append(&mut s3);
    string_of(&out)
}

/// Why a mod is not installed for a game version: one note for each bound
/// that the version breaks, empty where none.
pub open spec fn incompatibility_text(m: ModEntryV, game_version: u32) -> Seq<char> {
    let low = match m.low_cap {
        Some(min) => if game_version < min {
            " (requires >= "@ + nat_text(min as nat) + ")"@
        } else {
            Seq::empty()
        },
        None => Seq::empty(),
    };
    let high = match m.high_cap {
        Some(max) => if game_version > max {
            " (requires <= "@ + nat_text(max as nat) + ")"@
        } else {
            Seq::empty()
        },
        None => Seq::empty(),
    };
    low + high
}

/// Why a mod is not installed for a game version.
pub fn incompatible_reason(spec: &ModEntry, game_version: u32) -> (r: String)
    ensures
        r@ == incompatibility_text(spec@, game_version),
{
    let mut out: Vec<char> = Vec::new();
    let ghost low: Seq<char> = Seq::empty();
    if let Some(min) = spec.low_cap {
        if game_version < min {
            let mut p = chars_of(" (requires >= ");
            out.append(&mut p);
            push_nat_text(&mut out, min as u64);
            let mut q = chars_of(")");
            out.append(&mut q);
        }
    }
    let ghost after_low = out@;
    if let Some(max) = spec.high_cap {
        if game_version > max {
            let mut p = chars_of(" (requires <= ");
            out.append(&mut p);
            push_nat_text(&mut out, max as u64);
            let mut q = chars_of(")");
            out.append(&mut q);
        }
    }
    proof {
        let m = spec@;
        let high = match m.high_cap {
            Some(max) => if game_version > max {
                " (requires <= "@ + nat_text(max as nat) + ")"@
            } else {
                Seq::empty()
            },
            None => Seq::empty(),
        };
        assert(out@ == after_low + high);
    }
    string_of(&out)
}

} // verus!
