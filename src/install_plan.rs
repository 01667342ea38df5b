use vstd::prelude::*;
use std::cmp::Ordering;
use crate::mod_config::{ModEntry, ModEntryV, compatible, pinned_for};
use crate::mods::{cmp_version_str, incompatible_reason, incompatibility_text, latest_index, latest_pkg_version, thunderstore_download_url, version_order};
use crate::text::{chars_of, lower_of, lowercase, owned, same_chars, string_chars};
use crate::thunderstore::{PackageListing, PackageVersion};

verus! {

broadcast use {vstd::std_specs::btree::group_btree_axioms, vstd::laws_cmp::group_laws_cmp};

/// Whether a listed package is the mod `dev`/`name`, in any letter case.
pub open spec fn listing_matches(p: PackageListing, dev: Seq<char>, name: Seq<char>) -> bool {
    lower_of(p.owner@) == lower_of(dev) && lower_of(p.name@) == lower_of(name)
}

fn matches_mod(p: &PackageListing, dev: &str, name: &str) -> (r: bool)
    ensures
        r == listing_matches(*p, dev@, name@),
{
    lowercase(p.owner.as_str()) == lowercase(dev) && lowercase(p.name.as_str()) == lowercase(name)
}

/// The first listed package that is the mod.
pub fn find_package(packages: &[PackageListing], dev: &str, name: &str) -> (r: Option<usize>)
    ensures
        match r {
            Some(i) => i < packages.len() && listing_matches(packages@[i as int], dev@, name@)
                && forall|j: int| 0 <= j < i ==> !listing_matches(#[trigger] packages@[j], dev@, name@),
            None => forall|j: int|
                0 <= j < packages.len() ==> !listing_matches(#[trigger] packages@[j], dev@, name@),
        },
{
    let mut i: usize = 0;
    while i < packages.len()
        invariant
            i <= packages.len(),
            forall|j: int| 0 <= j < i ==> !listing_matches(#[trigger] packages@[j], dev@, name@),
        decreases packages.len() - i,
    {
        if matches_mod(&packages[i], dev, name) {
            return Some(i);
        }
        i += 1;
    }
    None
}

/// The last listed package that is the mod (a lookup table keyed by lower-case
/// owner and name keeps the last of duplicates).
pub fn find_package_last(packages: &[PackageListing], dev: &str, name: &str) -> (r: Option<usize>)
    ensures
        match r {
            Some(i) => i < packages.len() && listing_matches(packages@[i as int], dev@, name@)
                && forall|j: int|
                i < j < packages.len() ==> !listing_matches(#[trigger] packages@[j], dev@, name@),
            None => forall|j: int|
                0 <= j < packages.len() ==> !listing_matches(#[trigger] packages@[j], dev@, name@),
        },
{
    let mut i: usize = packages.len();
    while i > 0
        invariant
            i <= packages.len(),
            forall|j: int| i <= j < packages.len() ==> !listing_matches(#[trigger] packages@[j], dev@, name@),
        decreases i,
    {
        if matches_mod(&packages[i - 1], dev, name) {
            return Some(i - 1);
        }
        i -= 1;
    }
    None
}

/// The greatest listed version, as `latest_pkg_version` picks it.
pub open spec fn latest_version_text(vs: Seq<PackageVersion>) -> Option<Seq<char>> {
    if vs.len() == 0 {
        None
    } else {
        Some(vs[latest_index(vs, vs.len() as int)].version_number@)
    }
}

pub open spec fn listed(vs: Seq<PackageVersion>, v: Seq<char>) -> bool {
    exists|j: int| 0 <= j < vs.len() && #[trigger] vs[j].version_number@ == v
}

/// The version chosen for a mod: its pinned version where the listing has
/// it, and otherwise the greatest listed one; the placeholder `0.0.0` counts
/// as none.
pub open spec fn install_version(m: ModEntryV, game_version: u32, vs: Seq<PackageVersion>) -> Option<
    Seq<char>,
> {
    let chosen = match pinned_for(m.version_config, game_version) {
        Some(pin) => if listed(vs, pin) {
            Some(pin)
        } else {
            latest_version_text(vs)
        },
        None => latest_version_text(vs),
    };
    match chosen {
        Some(v) => if v == "0.0.0"@ {
            None
        } else {
            Some(v)
        },
        None => None,
    }
}

fn is_listed(vs: &[PackageVersion], v: &str) -> (r: bool)
    ensures
        r == listed(vs@, v@),
{
    let target = chars_of(v);
    let mut j: usize = 0;
    while j < vs.len()
        invariant
            j <= vs.len(),
            target@ == v@,
            forall|k: int| 0 <= k < j ==> #[trigger] vs@[k].version_number@ != v@,
        decreases vs.len() - j,
    {
        if same_chars(&string_chars(&vs[j].version_number), &target) {
            return true;
        }
        j += 1;
    }
    false
}

fn latest_text(vs: &[PackageVersion]) -> (r: Option<String>)
    ensures
        match r {
            Some(s) => latest_version_text(vs@) == Some(s@),
            None => latest_version_text(vs@) is None,
        },
{
    match latest_pkg_version(vs) {
        Some(p) => Some(p.version_number.clone()),
        None => None,
    }
}

/// The version to install for a mod from a package's listed versions.
pub fn resolve_version(spec: &ModEntry, game_version: u32, versions: &[PackageVersion]) -> (r: Option<
    String,
>)
    ensures
        match r {
            Some(s) => install_version(spec@, game_version, versions@) == Some(s@),
            None => install_version(spec@, game_version, versions@) is None,
        },
{
    let chosen = match spec.pinned_version_for(game_version) {
        Some(pin) => {
            if is_listed(versions, pin) {
                Some(owned(pin))
            } else {
                latest_text(versions)
            }
        },
        None => latest_text(versions),
    };
    match chosen {
        Some(v) => {
            if same_chars(&string_chars(&v), &chars_of("0.0.0")) {
                None
            } else {
                Some(v)
            }
        },
        None => None,
    }
}

} // verus!

verus! {

/// What to do for one mod of the list when installing.
#[derive(Debug, Clone)]
pub enum InstallStep {
    /// Installed, and the same version as the first one listed.
    AlreadyCurrent,
    /// Installed at the version given for exactly this game version.
    VersionEqual,
    /// Not for this game version; the reason text.
    Incompatible(String),
    /// The package is not in the listing.
    NotFound,
    /// The package lists no usable version.
    NoVersions,
    /// Download this version from this address.
    Download { version: String, url: String },
}

pub enum InstallStepV {
    AlreadyCurrent,
    VersionEqual,
    Incompatible(Seq<char>),
    NotFound,
    NoVersions,
    Download(Seq<char>, Seq<char>),
}

impl View for InstallStep {
    type V = InstallStepV;

    open spec fn view(&self) -> InstallStepV {
        match self {
            InstallStep::AlreadyCurrent => InstallStepV::AlreadyCurrent,
            InstallStep::VersionEqual => InstallStepV::VersionEqual,
            InstallStep::Incompatible(s) => InstallStepV::Incompatible(s@),
            InstallStep::NotFound => InstallStepV::NotFound,
            InstallStep::NoVersions => InstallStepV::NoVersions,
            InstallStep::Download { version, url } => InstallStepV::Download(version@, url@),
        }
    }
}

/// The version given for exactly this game version, or `0.0.0`.
pub open spec fn version_limit(m: ModEntryV, game_version: u32) -> Seq<char> {
    if m.version_config.contains_key(game_version) {
        m.version_config[game_version]
    } else {
        "0.0.0"@
    }
}

/// The first version that a package lists, or `0.0.0`.
pub open spec fn first_version_text(p: Option<PackageListing>) -> Seq<char> {
    match p {
        Some(p) => if p.versions.len() > 0 {
            p.versions@[0].version_number@
        } else {
            "0.0.0"@
        },
        None => "0.0.0"@,
    }
}

pub open spec fn download_url_text(dev: Seq<char>, name: Seq<char>, v: Seq<char>) -> Seq<char> {
    "https://thunderstore.io/package/download/"@ + dev + "/"@ + name + "/"@ + v + "/"@
}

pub open spec fn opt_listing(p: Option<&PackageListing>) -> Option<PackageListing> {
    match p {
        Some(x) => Some(*x),
        None => None,
    }
}

/// The step for a mod: an installed copy is kept where it is at the version
/// given for this game version, or, without one, at the first listed
/// version; otherwise the mod is checked against the game version, looked
/// up, and its version chosen.
pub open spec fn install_step(
    m: ModEntryV,
    game_version: u32,
    installed: Option<Seq<char>>,
    first: Option<PackageListing>,
    listing: Option<PackageListing>,
) -> InstallStepV {
    let limit = version_limit(m, game_version);
    if installed is Some && limit == "0.0.0"@ && installed->0 == first_version_text(first) {
        InstallStepV::AlreadyCurrent
    } else if installed is Some && limit != "0.0.0"@ && installed->0 == limit {
        InstallStepV::VersionEqual
    } else if !compatible(m, game_version) {
        InstallStepV::Incompatible(incompatibility_text(m, game_version))
    } else {
        match listing {
            None => InstallStepV::NotFound,
            Some(p) => match install_version(m, game_version, p.versions@) {
                None => InstallStepV::NoVersions,
                Some(v) => InstallStepV::Download(v, download_url_text(m.dev, m.name, v)),
            },
        }
    }
}

fn text_eq(a: &String, b: &[char]) -> (r: bool)
    ensures
        r == (a@ == b@),
{
    same_chars(&string_chars(a), b)
}

/// The step for one mod when installing, given the version of an installed
/// copy, the first listed package of that name, and the package that the
/// lookup table gives.
pub fn plan_install(
    spec: &ModEntry,
    game_version: u32,
    installed: Option<&String>,
    first: Option<&PackageListing>,
    listing: Option<&PackageListing>,
) -> (r: InstallStep)
    ensures
        r@ == install_step(
            spec@,
            game_version,
            match installed {
                Some(s) => Some(s@),
                None => None,
            },
            opt_listing(first),
            opt_listing(listing),
        ),
{
    let placeholder = chars_of("0.0.0");
    let limit: Vec<char> = match spec.version_config.get(&game_version) {
        Some(v) => string_chars(v),
        None => placeholder.clone(),
    };
    assert(limit@ == version_limit(spec@, game_version));
    if let Some(iv) = installed {
        if same_chars(&limit, &placeholder) {
            let newest: Vec<char> = match first {
                Some(p) => {
                    if p.versions.len() > 0 {
                        string_chars(&p.versions[0].version_number)
                    } else {
                        placeholder.clone()
                    }
                },
                None => placeholder.clone(),
            };
            assert(newest@ == first_version_text(opt_listing(first)));
            if text_eq(iv, &newest) {
                return InstallStep::AlreadyCurrent;
            }
        } else if text_eq(iv, &limit) {
            return InstallStep::VersionEqual;
        }
    }
    if !spec.is_compatible(game_version) {
        return InstallStep::Incompatible(incompatible_reason(spec, game_version));
    }
    match listing {
        None => InstallStep::NotFound,
        Some(p) => match resolve_version(spec, game_version, p.versions.as_slice()) {
            None => InstallStep::NoVersions,
            Some(v) => {
                let url = thunderstore_download_url(spec.dev.as_str(), spec.name.as_str(), v.as_str());
                InstallStep::Download { version: v, url }
            },
        },
    }
}

/// Whether a mod of the list can be installed or updated.
#[derive(Debug, Clone)]
pub enum UpdateStatus {
    /// Installed, but no target version could be found.
    Unresolved,
    /// Installed at the target version.
    Latest,
    /// Installed below the target version, which is given.
    CanUpdate(String),
    /// Installed above the target version, which is given.
    Newer(String),
    /// Not installed, and fit for this game version.
    CanInstall,
    /// Not installed, and not for this game version; the reason text.
    Incompatible(String),
}

pub enum UpdateStatusV {
    Unresolved,
    Latest,
    CanUpdate(Seq<char>),
    Newer(Seq<char>),
    CanInstall,
    Incompatible(Seq<char>),
}

impl View for UpdateStatus {
    type V = UpdateStatusV;

    open spec fn view(&self) -> UpdateStatusV {
        match self {
            UpdateStatus::Unresolved => UpdateStatusV::Unresolved,
            UpdateStatus::Latest => UpdateStatusV::Latest,
            UpdateStatus::CanUpdate(s) => UpdateStatusV::CanUpdate(s@),
            UpdateStatus::Newer(s) => UpdateStatusV::Newer(s@),
            UpdateStatus::CanInstall => UpdateStatusV::CanInstall,
            UpdateStatus::Incompatible(s) => UpdateStatusV::Incompatible(s@),
        }
    }
}

/// The version an installed mod should be at: its pinned version, else the
/// greatest listed one, else the placeholder `0.0.0`.
pub open spec fn desired_version(m: ModEntryV, game_version: u32, listing: Option<PackageListing>) -> Seq<
    char,
> {
    match pinned_for(m.version_config, game_version) {
        Some(pin) => pin,
        None => match listing {
            Some(p) => match latest_version_text(p.versions@) {
                Some(v) => v,
                None => "0.0.0"@,
            },
            None => "0.0.0"@,
        },
    }
}

pub open spec fn update_status_of(
    m: ModEntryV,
    game_version: u32,
    installed: Option<Seq<char>>,
    listing: Option<PackageListing>,
) -> UpdateStatusV {
    match installed {
        Some(iv) => {
            let d = desired_version(m, game_version, listing);
            if d == "0.0.0"@ {
                UpdateStatusV::Unresolved
            } else {
                match version_order(iv, d) {
                    Ordering::Equal => UpdateStatusV::Latest,
                    Ordering::Less => UpdateStatusV::CanUpdate(d),
                    Ordering::Greater => UpdateStatusV::Newer(d),
                }
            }
        },
        None => if compatible(m, game_version) {
            UpdateStatusV::CanInstall
        } else {
            UpdateStatusV::Incompatible(incompatibility_text(m, game_version))
        },
    }
}

/// Whether a mod can be installed or updated, given the version of an
/// installed copy and the package that the lookup table gives.
pub fn update_status(
    spec: &ModEntry,
    game_version: u32,
    installed: Option<&String>,
    listing: Option<&PackageListing>,
) -> (r: UpdateStatus)
    ensures
        r@ == update_status_of(
            spec@,
            game_version,
            match installed {
                Some(s) => Some(s@),
                None => None,
            },
            opt_listing(listing),
        ),
{
    match installed {
        Some(iv) => {
            let desired: String = match spec.pinned_version_for(game_version) {
                Some(pin) => owned(pin),
                None => match listing {
                    Some(p) => match latest_text(p.versions.as_slice()) {
                        Some(v) => v,
                        None => owned("0.0.0"),
                    },
                    None => owned("0.0.0"),
                },
            };
            if same_chars(&string_chars(&desired), &chars_of("0.0.0")) {
                return UpdateStatus::Unresolved;
            }
            match cmp_version_str(iv.as_str(), desired.as_str()) {
                Ordering::Equal => UpdateStatus::Latest,
                Ordering::Less => UpdateStatus::CanUpdate(desired),
                Ordering::Greater => UpdateStatus::Newer(desired),
            }
        },
        None => {
            if spec.is_compatible(game_version) {
                UpdateStatus::CanInstall
            } else {
                UpdateStatus::Incompatible(incompatible_reason(spec, game_version))
            }
        },
    }
}

} // verus!
