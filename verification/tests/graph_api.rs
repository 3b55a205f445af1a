//! The mutable graph-building API and its lookups.

use molt::deps::{Dependencies, Marker};
use molt::locks::{DependencyEntry, Lock, LockDocument, PackageEntry, ParseError};
use molt::pypackages::{PythonPackage, PythonPackageSpecifier};

fn package(name: &str, version: &str) -> PythonPackage {
    PythonPackage::new(
        name,
        PythonPackageSpecifier::Version(String::from(version), None),
        None,
    )
}

#[test]
fn nodes_link_by_key_and_share_identity() {
    let mut deps = Dependencies::new();
    assert!(deps.add_dependency("", None).is_none());
    assert!(deps.add_dependency("[dev]", None).is_none());
    assert!(deps.add_dependency("six", Some(package("six", "1.12.0"))).is_none());
    deps.add_dependence("", "six", None).unwrap();
    deps.add_dependence("[dev]", "six", None).unwrap();

    let root = deps.default().unwrap();
    let dev = deps.extra("dev").unwrap();
    assert_eq!(root.dependencies().len(), 1);
    assert_eq!(dev.dependencies().len(), 1);
    // Both edges point at the same node.
    assert_eq!(root.dependencies()[0].target, dev.dependencies()[0].target);
    let six = deps.node(root.dependencies()[0].target);
    assert_eq!(six.key(), "six");
    assert_eq!(six.python().unwrap().name(), "six");
}

#[test]
fn linking_against_a_missing_key_names_it() {
    let mut deps = Dependencies::new();
    deps.add_dependency("", None);
    assert_eq!(deps.add_dependence("", "ghost", None), Err(String::from("ghost")));
    assert_eq!(deps.add_dependence("ghost", "", None), Err(String::from("ghost")));
}

#[test]
fn registering_a_key_again_displaces_the_old_node() {
    let mut deps = Dependencies::new();
    deps.add_dependency("pkg", Some(package("pkg", "1.0")));
    let displaced = deps.add_dependency("pkg", Some(package("pkg", "2.0"))).unwrap();
    assert_eq!(displaced.key(), "pkg");
    assert_eq!(deps.len(), 1);
    match &deps.default() {
        None => {}
        Some(_) => panic!("no default section was registered"),
    }
}

#[test]
fn marker_duplicate_keeps_conditions() {
    let m = Marker::from(vec![String::from("a"), String::from("b")]);
    let copy = m.duplicate();
    assert_eq!(copy.iter(), m.iter());
    assert_eq!(copy.len(), 2);
}

#[test]
fn url_package_without_trust_flag_is_rejected() {
    let doc = LockDocument {
        sources: Vec::new(),
        dependencies: vec![(
            String::from("pkg"),
            DependencyEntry {
                python: Some(PackageEntry {
                    name: String::from("pkg"),
                    version: None,
                    source: None,
                    url: Some(String::from("https://example.com/pkg.tar.gz")),
                    no_verify_ssl: None,
                    path: None,
                    vcs: None,
                    rev: None,
                }),
                dependencies: Vec::new(),
            },
        )],
        hashes: Vec::new(),
    };
    match Lock::from_document(&doc) {
        Err(ParseError::MissingField(f)) => assert_eq!(f, "no_verify_ssl"),
        other => panic!("unexpected result: {:?}", other.map(|_| ())),
    }
}
