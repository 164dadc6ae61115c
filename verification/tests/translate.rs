//! Requirement translation: bases, extras, sources, and self-dependency
//! handling.

use uv_resolver::identity::PackageIdentity;
use uv_resolver::translate::{
    ParsedUrl, PubGrubDependency, Requirement, RequirementSource, VerbatimParsedUrl,
};
use uv_resolver::version_range::{SpecOp, VersionSpecifier};

fn registry_requirement(name: &str, extras: &[&str], specs: &[(SpecOp, u64)]) -> Requirement {
    Requirement {
        name: name.to_string(),
        extras: extras.iter().map(|e| e.to_string()).collect(),
        marker: None,
        source: RequirementSource::Registry {
            specifier: specs
                .iter()
                .map(|(op, version)| VersionSpecifier { op: *op, version: *version })
                .collect(),
        },
    }
}

fn assert_base_package(p: &PackageIdentity, expected: &str) {
    match p {
        PackageIdentity::Package { name, extra, dev, marker } => {
            assert_eq!(name, expected);
            assert!(extra.is_none() && dev.is_none() && marker.is_none());
        }
        _ => panic!("expected a base package identity"),
    }
}

#[test]
fn registry_with_extras_yields_base_and_extras() {
    let req = registry_requirement("a", &["x", "y"], &[(SpecOp::Ge, 1), (SpecOp::Lt, 2)]);
    let t = PubGrubDependency::from_requirement(&req, None, None);
    assert!(!t.dropped_self_dependency);
    assert_eq!(t.dependencies.len(), 3);
    assert_base_package(&t.dependencies[0].package, "a");
    for (k, extra_name) in ["x", "y"].iter().enumerate() {
        match &t.dependencies[k + 1].package {
            PackageIdentity::Extra { name, extra, marker } => {
                assert_eq!(name, "a");
                assert_eq!(extra, extra_name);
                assert!(marker.is_none());
            }
            _ => panic!("expected an extra identity"),
        }
    }
    for dep in &t.dependencies {
        assert!(dep.url.is_none());
        assert!(dep.specifier.is_some());
        // the compiled range is exactly [1, 2)
        assert!(dep.version.contains(1));
        assert!(!dep.version.contains(0));
        assert!(!dep.version.contains(2));
    }
}

#[test]
fn self_dependency_is_dropped_and_reported() {
    let req = registry_requirement("a", &[], &[(SpecOp::Ge, 0)]);
    let owner = "a".to_string();
    let t = PubGrubDependency::from_requirement(&req, None, Some(&owner));
    assert!(t.dropped_self_dependency);
    assert_eq!(t.dependencies.len(), 0);
}

#[test]
fn dev_group_self_dependency_is_kept() {
    let req = registry_requirement("a", &[], &[(SpecOp::Ge, 0)]);
    let owner = "a".to_string();
    let dev = "test".to_string();
    let t = PubGrubDependency::from_requirement(&req, Some(&dev), Some(&owner));
    assert!(!t.dropped_self_dependency);
    assert_eq!(t.dependencies.len(), 1);
    assert_base_package(&t.dependencies[0].package, "a");
}

#[test]
fn marker_self_edge_passes_through() {
    let req = Requirement {
        name: "a".to_string(),
        extras: Vec::new(),
        marker: Some("sys_platform == 'linux'".to_string()),
        source: RequirementSource::Registry {
            specifier: vec![VersionSpecifier { op: SpecOp::Ge, version: 0 }],
        },
    };
    let owner = "a".to_string();
    let t = PubGrubDependency::from_requirement(&req, None, Some(&owner));
    assert!(!t.dropped_self_dependency);
    assert_eq!(t.dependencies.len(), 1);
    match &t.dependencies[0].package {
        PackageIdentity::Marker { name, marker } => {
            assert_eq!(name, "a");
            assert_eq!(marker, "sys_platform == 'linux'");
        }
        _ => panic!("expected a marker identity"),
    }
}

#[test]
fn git_source_keeps_full_range_and_verbatim_url() {
    let req = Requirement {
        name: "a".to_string(),
        extras: Vec::new(),
        marker: None,
        source: RequirementSource::Git {
            repository: "https://git.example/a".to_string(),
            reference: Some("main".to_string()),
            precise: Some("abcdef".to_string()),
            subdirectory: None,
            url: "git+https://git.example/a@main".to_string(),
        },
    };
    let t = PubGrubDependency::from_requirement(&req, None, None);
    assert_eq!(t.dependencies.len(), 1);
    let dep = &t.dependencies[0];
    assert!(dep.specifier.is_none());
    // a non-registry source always yields the full range
    assert!(dep.version.contains(0));
    assert!(dep.version.contains(u64::MAX));
    match &dep.url {
        Some(VerbatimParsedUrl { parsed_url, verbatim }) => {
            assert_eq!(verbatim, "git+https://git.example/a@main");
            match parsed_url {
                ParsedUrl::Git { repository, reference, precise, subdirectory } => {
                    assert_eq!(repository, "https://git.example/a");
                    assert_eq!(reference.as_deref(), Some("main"));
                    assert_eq!(precise.as_deref(), Some("abcdef"));
                    assert!(subdirectory.is_none());
                }
                _ => panic!("expected a git URL"),
            }
        }
        None => panic!("expected a URL"),
    }
}

#[test]
fn directory_source_keeps_flags() {
    let req = Requirement {
        name: "a".to_string(),
        extras: vec!["x".to_string()],
        marker: None,
        source: RequirementSource::Directory {
            install_path: "/srv/a".to_string(),
            editable: true,
            is_virtual: false,
            url: "file:///srv/a".to_string(),
        },
    };
    let t = PubGrubDependency::from_requirement(&req, None, None);
    assert_eq!(t.dependencies.len(), 2);
    for dep in &t.dependencies {
        match &dep.url {
            Some(VerbatimParsedUrl { parsed_url, verbatim }) => {
                assert_eq!(verbatim, "file:///srv/a");
                match parsed_url {
                    ParsedUrl::Directory { install_path, editable, is_virtual } => {
                        assert_eq!(install_path, "/srv/a");
                        assert!(*editable);
                        assert!(!*is_virtual);
                    }
                    _ => panic!("expected a directory URL"),
                }
            }
            None => panic!("expected a URL"),
        }
    }
}

#[test]
fn specifier_compilation_is_exact() {
    // != 5 and <= 7: holds 4, 6, 7; not 5, 8
    let req = registry_requirement("b", &[], &[(SpecOp::Ne, 5), (SpecOp::Le, 7)]);
    let t = PubGrubDependency::from_requirement(&req, None, None);
    let dep = &t.dependencies[0];
    assert!(dep.version.contains(4));
    assert!(!dep.version.contains(5));
    assert!(dep.version.contains(6));
    assert!(dep.version.contains(7));
    assert!(!dep.version.contains(8));
}
