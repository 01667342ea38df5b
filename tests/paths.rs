use hq_launcher::paths::{is_safe_rel_path, sanitize_tar_rel_path, strip_prefix_components, PathPart};

fn n(s: &str) -> PathPart {
    PathPart::Normal(s.to_string())
}

#[test]
fn only_plain_names_are_safe() {
    assert!(is_safe_rel_path(&[n("BepInEx"), n("config"), n("a.cfg")]));
    assert!(is_safe_rel_path(&[]));
    assert!(!is_safe_rel_path(&[n("a"), PathPart::ParentDir, n("b")]));
    assert!(!is_safe_rel_path(&[PathPart::RootDir, n("etc")]));
    assert!(!is_safe_rel_path(&[PathPart::CurDir, n("a")]));
}

#[test]
fn archive_paths_are_sanitized() {
    let r = sanitize_tar_rel_path(&[PathPart::CurDir, n("GE-Proton"), n("files")]).unwrap();
    assert_eq!(r, vec!["GE-Proton".to_string(), "files".to_string()]);
    assert!(sanitize_tar_rel_path(&[n("a"), PathPart::ParentDir]).is_none());
    assert!(sanitize_tar_rel_path(&[PathPart::Prefix("C:".to_string()), n("a")]).is_none());
    assert!(sanitize_tar_rel_path(&[PathPart::CurDir]).is_none());
    assert!(sanitize_tar_rel_path(&[]).is_none());
}

#[test]
fn prefix_components_match_one_by_one() {
    let comps: Vec<String> = ["BepInEx", "plugins", "X.dll"].iter().map(|s| s.to_string()).collect();
    let pre: Vec<String> = ["BepInEx", "plugins"].iter().map(|s| s.to_string()).collect();
    assert_eq!(strip_prefix_components(&comps, &pre), Some(2));
    let other: Vec<String> = ["BepInEx", "config"].iter().map(|s| s.to_string()).collect();
    assert_eq!(strip_prefix_components(&comps, &other), None);
    assert_eq!(strip_prefix_components(&pre, &comps), None);
    assert_eq!(strip_prefix_components(&comps, &[]), Some(0));
}
