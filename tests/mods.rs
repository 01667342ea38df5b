use std::cmp::Ordering;
use std::collections::BTreeMap;

use hq_launcher::downloader::{looks_like_twofactor_needed, strip_ansi, strip_escape_bytes, twofactor_hint_in};
use hq_launcher::launcher::{mod_folder_name, normalize_mod_id};
use hq_launcher::mod_config::{normalize_aliases, ModEntry, ModsConfig, RemoteManifest};
use hq_launcher::mods::{cmp_version_str, incompatible_reason, latest_pkg_version, parse_semver_loose, thunderstore_download_url};
use hq_launcher::thunderstore::PackageVersion;
use hq_launcher::variable::get_practice_mod_list;

fn entry(dev: &str, name: &str, low: Option<u32>, high: Option<u32>) -> ModEntry {
    ModEntry {
        name: name.to_string(),
        dev: dev.to_string(),
        enabled: true,
        low_cap: low,
        high_cap: high,
        version_config: BTreeMap::new(),
    }
}

#[test]
fn compatibility_bounds_are_inclusive() {
    let m = entry("a", "b", Some(50), Some(60));
    assert!(!m.is_compatible(49));
    assert!(m.is_compatible(50));
    assert!(m.is_compatible(60));
    assert!(!m.is_compatible(61));
    let mut off = entry("a", "b", None, None);
    assert!(off.is_compatible(1));
    off.enabled = false;
    assert!(!off.is_compatible(1));
}

#[test]
fn pinned_version_takes_greatest_threshold_below() {
    let list = get_practice_mod_list();
    assert_eq!(list.len(), 5);
    let imperium = &list[0];
    assert_eq!(imperium.name, "Imperium");
    assert_eq!(imperium.pinned_version_for(49), None);
    assert_eq!(imperium.pinned_version_for(50), Some("0.1.9"));
    assert_eq!(imperium.pinned_version_for(65), Some("0.2.7"));
    assert_eq!(imperium.pinned_version_for(70), Some("1.1.1"));
    assert_eq!(imperium.pinned_version_for(u32::MAX), Some("1.1.1"));
    assert_eq!(list[1].pinned_version_for(80), None);
    assert_eq!(list[2].pinned_version_for(61), Some("3.2.0"));
}

#[test]
fn default_list_has_every_mod() {
    let cfg = ModsConfig::default_for_lethal_company();
    assert_eq!(cfg.mods.len(), 17);
    assert_eq!(cfg.mods[0].dev, "HQHQTeam");
    assert_eq!(cfg.mods[14].name, "BetterCruiserSync");
    assert_eq!(cfg.mods[14].low_cap, Some(56));
    assert!(cfg.mods.iter().all(|m| m.enabled && m.high_cap.is_none() && m.version_config.is_empty()));
}

#[test]
fn misspelled_alias_is_corrected() {
    let mut cfg = ModsConfig { mods: vec![entry("Hardy", "LCMaxSoundFix", None, None), entry("x", "LCMaxSoundFix", None, None)] };
    assert!(normalize_aliases(&mut cfg));
    assert_eq!(cfg.mods[0].name, "LCMaxSoundsFix");
    assert_eq!(cfg.mods[1].name, "LCMaxSoundFix");
    assert!(!normalize_aliases(&mut cfg));
    let (v, c) = ModsConfig::from_manifest(RemoteManifest { version: 3, mods: vec![entry("Hardy", "LCMaxSoundFix", None, None)] });
    assert_eq!(v, 3);
    assert_eq!(c.mods[0].name, "LCMaxSoundsFix");
}

#[test]
fn incompatibility_notes() {
    assert_eq!(incompatible_reason(&entry("a", "b", Some(50), None), 45), " (requires >= 50)");
    assert_eq!(incompatible_reason(&entry("a", "b", None, Some(40)), 45), " (requires <= 40)");
    assert_eq!(incompatible_reason(&entry("a", "b", Some(40), Some(50)), 45), "");
}

#[test]
fn download_url_and_folder_name() {
    assert_eq!(
        thunderstore_download_url("giosuel", "Imperium", "1.1.1"),
        "https://thunderstore.io/package/download/giosuel/Imperium/1.1.1/"
    );
    assert_eq!(mod_folder_name("Hardy", "LCMaxSoundsFix"), "Hardy-LCMaxSoundsFix");
    let id = normalize_mod_id("  HQHQTeam ", "HQoL");
    assert_eq!(id.dev, "hqhqteam");
    assert_eq!(id.name, "hqol");
}

#[test]
fn version_ordering() {
    assert_eq!(parse_semver_loose(" v1.2 ").as_deref(), Some("1.2.0"));
    assert_eq!(parse_semver_loose("3").as_deref(), Some("3.0.0"));
    assert_eq!(parse_semver_loose("1.0.0-beta").as_deref(), Some("1.0.0-beta"));
    assert_eq!(parse_semver_loose("abc"), None);
    assert_eq!(cmp_version_str("1.2", "1.10.0"), Ordering::Less);
    assert_eq!(cmp_version_str("v2", "1.9.9"), Ordering::Greater);
    assert_eq!(cmp_version_str("1.0.0", "1.0"), Ordering::Equal);
    assert_eq!(cmp_version_str("abc", "1.0"), Ordering::Less);
    assert_eq!(cmp_version_str("abc", "abd"), Ordering::Less);
    assert_eq!(cmp_version_str("b", "abd"), Ordering::Greater);
}

#[test]
fn latest_version_wins_last_of_equals() {
    let v = |n: &str, u: &str| PackageVersion { version_number: n.to_string(), download_url: u.to_string() };
    let list = vec![v("1.0.0", "a"), v("1.10.0", "b"), v("1.9.0", "c"), v("1.10", "d")];
    assert_eq!(latest_pkg_version(&list).unwrap().download_url, "d");
    assert!(latest_pkg_version(&[]).is_none());
}

#[test]
fn ansi_sequences_are_removed() {
    assert_eq!(strip_ansi("\x1b[31mred\x1b[0m\r\nnext"), "red\nnext");
    assert_eq!(strip_ansi("a\x1b]0;title\x07b"), "ab");
    assert_eq!(strip_ansi("a\x1b]0;title\x1b\\b"), "ab");
    assert_eq!(strip_ansi("keep\x1b"), "keep");
    assert_eq!(strip_ansi("a\x1bXb"), "ab");
    assert_eq!(strip_ansi("a\x1b\u{e9}b"), "a\u{fffd}b");
    assert_eq!(strip_escape_bytes(b"x\x1b[1;2Hy"), b"xy".to_vec());
}

#[test]
fn two_factor_prompts_are_recognised() {
    assert!(looks_like_twofactor_needed("Please enter the Steam Guard code"));
    assert!(looks_like_twofactor_needed("STEAM_GUARD_CODE_REQUIRED"));
    assert!(looks_like_twofactor_needed("A code was sent to your e-mail"));
    assert!(!looks_like_twofactor_needed("Download complete"));
    assert!(twofactor_hint_in("2fa needed"));
    assert!(!twofactor_hint_in("STEAM GUARD"));
}
