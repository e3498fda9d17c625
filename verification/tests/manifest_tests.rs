use armory::manifest::{
    manifest_dep_is_local, manifest_dep_version, manifest_members, manifest_self_version,
    manifest_text, parse_manifest, rewrite_manifest,
};
use armory::version::Version;

const MEMBER_TOML: &str = "\
# build manifest for the library member\n\
[package]\n\
name = \"armory_lib\"\n\
version = \"0.1.0\"\n\
edition = \"2021\"\n\
\n\
[dependencies]\n\
serde = \"1.0\"\n\
core_lib = { path = \"../core_lib\" }\n\
";

#[test]
fn parse_rejects_bad_toml() {
    assert!(parse_manifest("[package\nversion=").is_none());
}

#[test]
fn rewrite_sets_self_version() {
    let mut doc = parse_manifest(MEMBER_TOML).unwrap();
    let v = Version { major: 0, minor: 2, patch: 0 };
    let locals = rewrite_manifest(&mut doc, &v).unwrap();
    assert_eq!(locals, vec!["core_lib".to_string()]);
    let text = manifest_text(&doc);
    let reparsed = parse_manifest(&text).unwrap();
    assert_eq!(manifest_self_version(&reparsed), Some("0.2.0".to_string()));
}

#[test]
fn rewrite_pins_local_dependency_only() {
    let mut doc = parse_manifest(MEMBER_TOML).unwrap();
    let v = Version { major: 1, minor: 0, patch: 0 };
    rewrite_manifest(&mut doc, &v).unwrap();
    let text = manifest_text(&doc);
    let reparsed = parse_manifest(&text).unwrap();
    // the local (path) dependency is pinned
    assert_eq!(
        manifest_dep_version(&reparsed, "core_lib"),
        Some("1.0.0".to_string())
    );
    assert!(manifest_dep_is_local(&reparsed, "core_lib"));
    // the registry dependency is untouched
    assert!(!manifest_dep_is_local(&reparsed, "serde"));
    assert!(text.contains("serde = \"1.0\""));
}

#[test]
fn rewrite_preserves_unrelated_content() {
    let mut doc = parse_manifest(MEMBER_TOML).unwrap();
    let v = Version { major: 0, minor: 1, patch: 1 };
    rewrite_manifest(&mut doc, &v).unwrap();
    let text = manifest_text(&doc);
    // comments, the edition field and the package name survive the edit
    assert!(text.contains("# build manifest for the library member"));
    assert!(text.contains("edition = \"2021\""));
    assert!(text.contains("name = \"armory_lib\""));
    assert!(text.contains("version = \"0.1.1\""));
}

#[test]
fn rewrite_without_dependencies_section() {
    let mut doc = parse_manifest("[package]\nname = \"solo\"\nversion = \"0.0.1\"\n").unwrap();
    let v = Version { major: 0, minor: 0, patch: 2 };
    let locals = rewrite_manifest(&mut doc, &v).unwrap();
    assert!(locals.is_empty());
    let reparsed = parse_manifest(&manifest_text(&doc)).unwrap();
    assert_eq!(manifest_self_version(&reparsed), Some("0.0.2".to_string()));
}

#[test]
fn rewrite_rejects_non_table_package() {
    let mut doc = parse_manifest("package = \"oops\"\n").unwrap();
    let v = Version { major: 1, minor: 0, patch: 0 };
    assert!(rewrite_manifest(&mut doc, &v).is_none());
}

#[test]
fn workspace_member_list() {
    let doc = parse_manifest("[workspace]\nmembers = [\"armory_lib\", \"armory_cli\"]\n").unwrap();
    assert_eq!(
        manifest_members(&doc),
        Some(vec!["armory_lib".to_string(), "armory_cli".to_string()])
    );
    let plain = parse_manifest("[package]\nname = \"x\"\n").unwrap();
    assert_eq!(manifest_members(&plain), None);
}
