use armory::armory::{parse_armory_toml, render_armory_toml, ArmoryTOML};
use armory::graph::ReleaseError;
use armory::manifest::{manifest_dep_version, manifest_self_version, manifest_text, parse_manifest};
use armory::publish::{publish_workspace, PublishState};
use armory::version::Version;
use armory::workspace::{update_member_deps, Member};

const LIB_TOML: &str = "\
[package]\n\
name = \"core_lib\"\n\
version = \"0.1.0\"\n\
\n\
[dependencies]\n\
serde = \"1.0\"\n\
";

const CLI_TOML: &str = "\
[package]\n\
name = \"cli\"\n\
version = \"0.1.0\"\n\
\n\
[dependencies]\n\
core_lib = { path = \"../core_lib\" }\n\
";

fn member(name: &str, text: &str) -> Member {
    Member { name: name.to_string(), doc: parse_manifest(text).unwrap() }
}

#[test]
fn release_rewrites_all_members_and_orders_publishes() {
    let members = vec![member("cli", CLI_TOML), member("core_lib", LIB_TOML)];
    let target = Version { major: 0, minor: 2, patch: 0 };
    let (out, graph) = update_member_deps(members, &target).unwrap();

    // every member's self version equals the target
    for m in out.iter() {
        let reparsed = parse_manifest(&manifest_text(&m.doc)).unwrap();
        assert_eq!(manifest_self_version(&reparsed), Some("0.2.0".to_string()));
    }
    // the local edge is pinned, the registry dependency untouched
    let cli = parse_manifest(&manifest_text(&out[0].doc)).unwrap();
    assert_eq!(manifest_dep_version(&cli, "core_lib"), Some("0.2.0".to_string()));
    let lib = parse_manifest(&manifest_text(&out[1].doc)).unwrap();
    assert_eq!(manifest_dep_version(&lib, "serde"), None);

    // the dependency goes to the registry before its dependent
    let state = PublishState::new_for(&graph);
    let plan = publish_workspace(&graph, &state).unwrap();
    let names: Vec<&str> = plan.iter().map(|&i| graph.names[i].as_str()).collect();
    assert_eq!(names, vec!["core_lib", "cli"]);
}

#[test]
fn release_rejects_unknown_local_dependency() {
    let members = vec![member("cli", CLI_TOML)];
    let target = Version { major: 0, minor: 2, patch: 0 };
    let err = update_member_deps(members, &target).unwrap_err();
    assert_eq!(err, ReleaseError::UnknownLocalDependency("core_lib".to_string()));
}

#[test]
fn release_rejects_duplicate_member_names() {
    let members = vec![member("core_lib", LIB_TOML), member("core_lib", LIB_TOML)];
    let target = Version { major: 0, minor: 2, patch: 0 };
    let err = update_member_deps(members, &target).unwrap_err();
    assert_eq!(err, ReleaseError::DuplicateMember("core_lib".to_string()));
}

#[test]
fn release_rejects_malformed_member_manifest() {
    let members = vec![Member {
        name: "broken".to_string(),
        doc: parse_manifest("package = \"oops\"\n").unwrap(),
    }];
    let target = Version { major: 1, minor: 0, patch: 0 };
    let err = update_member_deps(members, &target).unwrap_err();
    assert_eq!(err, ReleaseError::MalformedManifest("broken".to_string()));
}

#[test]
fn armory_record_round_trip() {
    let a = ArmoryTOML { version: Version { major: 3, minor: 1, patch: 4 } };
    let text = render_armory_toml(&a);
    assert_eq!(text, "version = \"3.1.4\"\n");
    assert_eq!(parse_armory_toml(&text).unwrap(), a);
}

#[test]
fn armory_record_reads_tolerant_toml() {
    let a = parse_armory_toml("# release record\nversion = \"1.2.3\" # current\n").unwrap();
    assert_eq!(a.version, Version { major: 1, minor: 2, patch: 3 });
}

#[test]
fn armory_record_rejects_bad_text() {
    assert!(parse_armory_toml("no version here = 1\n").is_err());
    assert!(parse_armory_toml("version = \"not semver\"\n").is_err());
    assert!(parse_armory_toml("version = [1, 2, 3]\n").is_err());
    assert!(parse_armory_toml("[[[[").is_err());
}
