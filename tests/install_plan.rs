use std::collections::BTreeMap;

use hq_launcher::install_plan::{find_package, find_package_last, plan_install, resolve_version, update_status, InstallStep, UpdateStatus};
use hq_launcher::mod_config::ModEntry;
use hq_launcher::thunderstore::{PackageListing, PackageVersion};

fn version(n: &str) -> PackageVersion {
    PackageVersion { version_number: n.to_string(), download_url: format!("u/{n}") }
}

fn listing(owner: &str, name: &str, versions: &[&str]) -> PackageListing {
    PackageListing {
        name: name.to_string(),
        owner: owner.to_string(),
        full_name: format!("{owner}-{name}"),
        versions: versions.iter().map(|v| version(v)).collect(),
    }
}

fn spec(low: Option<u32>, pins: &[(u32, &str)]) -> ModEntry {
    ModEntry {
        name: "Imperium".to_string(),
        dev: "giosuel".to_string(),
        enabled: true,
        low_cap: low,
        high_cap: None,
        version_config: pins.iter().map(|(k, v)| (*k, v.to_string())).collect::<BTreeMap<_, _>>(),
    }
}

#[test]
fn package_lookup_ignores_case() {
    let pkgs = vec![listing("Other", "X", &[]), listing("GIOSUEL", "imperium", &["1.0.0"]), listing("giosuel", "Imperium", &["2.0.0"])];
    assert_eq!(find_package(&pkgs, "giosuel", "Imperium"), Some(1));
    assert_eq!(find_package_last(&pkgs, "giosuel", "Imperium"), Some(2));
    assert_eq!(find_package(&pkgs, "nobody", "Imperium"), None);
}

#[test]
fn pinned_version_is_used_when_listed() {
    let vs = vec![version("1.1.1"), version("0.2.8"), version("0.2.7")];
    assert_eq!(resolve_version(&spec(None, &[(60, "0.2.7")]), 65, &vs).as_deref(), Some("0.2.7"));
    assert_eq!(resolve_version(&spec(None, &[(60, "0.2.5")]), 65, &vs).as_deref(), Some("1.1.1"));
    assert_eq!(resolve_version(&spec(None, &[]), 65, &vs).as_deref(), Some("1.1.1"));
    assert_eq!(resolve_version(&spec(None, &[]), 65, &[]), None);
    assert_eq!(resolve_version(&spec(None, &[]), 65, &[version("0.0.0")]), None);
}

#[test]
fn install_steps() {
    let pkg = listing("giosuel", "Imperium", &["1.1.1", "0.2.8"]);
    let s = spec(Some(50), &[]);
    match plan_install(&s, 70, None, Some(&pkg), Some(&pkg)) {
        InstallStep::Download { version, url } => {
            assert_eq!(version, "1.1.1");
            assert_eq!(url, "https://thunderstore.io/package/download/giosuel/Imperium/1.1.1/");
        }
        other => panic!("unexpected {other:?}"),
    }
    let installed = "1.1.1".to_string();
    assert!(matches!(plan_install(&s, 70, Some(&installed), Some(&pkg), Some(&pkg)), InstallStep::AlreadyCurrent));
    match plan_install(&s, 40, None, Some(&pkg), Some(&pkg)) {
        InstallStep::Incompatible(why) => assert_eq!(why, " (requires >= 50)"),
        other => panic!("unexpected {other:?}"),
    }
    assert!(matches!(plan_install(&s, 70, None, None, None), InstallStep::NotFound));
    let empty = listing("giosuel", "Imperium", &[]);
    assert!(matches!(plan_install(&s, 70, None, Some(&empty), Some(&empty)), InstallStep::NoVersions));
    let exact = spec(None, &[(70, "0.2.8")]);
    let old = "0.2.8".to_string();
    assert!(matches!(plan_install(&exact, 70, Some(&old), Some(&pkg), Some(&pkg)), InstallStep::VersionEqual));
    match plan_install(&exact, 71, Some(&old), Some(&pkg), Some(&pkg)) {
        InstallStep::Download { version, .. } => assert_eq!(version, "0.2.8"),
        other => panic!("unexpected {other:?}"),
    }
}

#[test]
fn update_statuses() {
    let pkg = listing("giosuel", "Imperium", &["1.1.1", "1.2.0"]);
    let s = spec(Some(50), &[]);
    let v = |x: &str| x.to_string();
    assert!(matches!(update_status(&s, 70, Some(&v("1.2.0")), Some(&pkg)), UpdateStatus::Latest));
    match update_status(&s, 70, Some(&v("1.1.1")), Some(&pkg)) {
        UpdateStatus::CanUpdate(d) => assert_eq!(d, "1.2.0"),
        other => panic!("unexpected {other:?}"),
    }
    match update_status(&s, 70, Some(&v("2.0")), Some(&pkg)) {
        UpdateStatus::Newer(d) => assert_eq!(d, "1.2.0"),
        other => panic!("unexpected {other:?}"),
    }
    assert!(matches!(update_status(&s, 70, Some(&v("1.0.0")), None), UpdateStatus::Unresolved));
    assert!(matches!(update_status(&s, 70, None, None), UpdateStatus::CanInstall));
    assert!(matches!(update_status(&s, 10, None, None), UpdateStatus::Incompatible(_)));
}
