//! Lock-document structures and the graph builder.

use molt::deps::Marker;
use molt::locks::{DependencyEntry, Lock, LockDocument, PackageEntry, ParseError, SourceEntry};

fn package_entry(name: &str) -> PackageEntry {
    PackageEntry {
        name: String::from(name),
        version: None,
        source: None,
        url: None,
        no_verify_ssl: None,
        path: None,
        vcs: None,
        rev: None,
    }
}

fn versioned(name: &str, version: &str, source: Option<&str>) -> PackageEntry {
    let mut p = package_entry(name);
    p.version = Some(String::from(version));
    p.source = source.map(String::from);
    p
}

fn empty_doc() -> LockDocument {
    LockDocument { sources: Vec::new(), dependencies: Vec::new(), hashes: Vec::new() }
}

#[test]
fn deps_test_python_entry() {
    let entry = versioned("certifi", "2017.7.27.1", Some("default"));
    assert_eq!(entry.name, "certifi");
    assert_eq!(entry.version.as_deref(), Some("2017.7.27.1"));
    assert_eq!(entry.source.as_deref(), Some("default"));
    assert!(entry.url.is_none() && entry.path.is_none() && entry.vcs.is_none());
}

#[test]
fn deps_test_python_entry_missing_sources() {
    let entry = versioned("certifi", "2017.7.27.1", None);
    assert_eq!(entry.name, "certifi");
    assert_eq!(entry.version.as_deref(), Some("2017.7.27.1"));
    assert_eq!(entry.source, None);
}

#[test]
fn test_entry() {
    // A versioned package entry resolved against a source map.
    let doc = LockDocument {
        sources: vec![SourceEntry {
            name: String::from("default"),
            url: String::from("https://pypi.org/simple"),
            no_verify_ssl: None,
        }],
        dependencies: vec![(
            String::from("certifi"),
            DependencyEntry {
                python: Some(versioned("certifi", "2017.7.27.1", Some("default"))),
                dependencies: Vec::new(),
            },
        )],
        hashes: Vec::new(),
    };
    let lock = Lock::from_document(&doc).unwrap();
    let node = lock.dependencies().node(0);
    let pkg = node.python().unwrap();
    assert_eq!(pkg.name(), "certifi");
    match &pkg.specifier {
        molt::pypackages::PythonPackageSpecifier::Version(v, Some(src)) => {
            assert_eq!(v, "2017.7.27.1");
            assert_eq!(src.name, "default");
        },
        other => panic!("unexpected specifier: {:?}", other),
    }
}

#[test]
fn deps_test_dependency_entry() {
    let entry = DependencyEntry {
        python: Some(versioned("foo", "2.18.4", None)),
        dependencies: vec![
            (String::from("bar"), None),
            (String::from("baz"), Some(Marker::from(vec![String::from("os_name == 'nt'")]))),
            (
                String::from("qux"),
                Some(Marker::from(vec![
                    String::from("os_name != 'nt'"),
                    String::from("python_version < '3.5'"),
                ])),
            ),
        ],
    };
    let keys: Vec<&str> = entry.dependencies.iter().map(|(k, _)| k.as_str()).collect();
    assert_eq!(keys, vec!["bar", "baz", "qux"]);
    assert!(entry.dependencies[0].1.is_none());
    assert_eq!(
        entry.dependencies[1].1.as_ref().unwrap().iter(),
        &vec![String::from("os_name == 'nt'")],
    );
    assert_eq!(
        entry.dependencies[2].1.as_ref().unwrap().iter(),
        &vec![String::from("os_name != 'nt'"), String::from("python_version < '3.5'")],
    );
    let py = entry.python.as_ref().unwrap();
    assert_eq!(py.name, "foo");
    assert_eq!(py.version.as_deref(), Some("2.18.4"));
    assert_eq!(py.source, None);
}

#[test]
fn deps_test_dependency_entry_no_python() {
    let entry = DependencyEntry { python: None, dependencies: Vec::new() };
    assert!(entry.python.is_none());
}

#[test]
fn deps_test_dependency_entry_no_dependencies() {
    let entry = DependencyEntry { python: None, dependencies: Vec::new() };
    assert!(entry.dependencies.is_empty());
}

#[test]
fn sources_test_source_mapping() {
    let mut doc = empty_doc();
    doc.sources = vec![
        SourceEntry {
            name: String::from("pypi"),
            url: String::from("https://pypi.org/simple"),
            no_verify_ssl: None,
        },
        SourceEntry {
            name: String::from("alibaba"),
            url: String::from("https://mirrors.aliyun.com/simple"),
            no_verify_ssl: Some(true),
        },
    ];
    let lock = Lock::from_document(&doc).unwrap();
    let sources = lock.sources();
    assert_eq!(sources.len(), 2);
    let pypi = sources.get("pypi").unwrap();
    assert_eq!(pypi.base_url(), "https://pypi.org/simple");
    assert!(!pypi.no_verify_ssl());
    let alibaba = sources.get("alibaba").unwrap();
    assert_eq!(alibaba.base_url(), "https://mirrors.aliyun.com/simple");
    assert!(alibaba.no_verify_ssl());
    assert!(sources.get("missing").is_none());
}

#[test]
fn test_simple_dependency_graph() {
    let doc = LockDocument {
        sources: Vec::new(),
        dependencies: vec![
            (
                String::from("bar"),
                DependencyEntry {
                    python: Some(versioned("Bar", "2.2.0", None)),
                    dependencies: vec![
                        (String::from("baz"), None),
                        (
                            String::from("foo"),
                            Some(Marker::from(vec![String::from("os_name == 'nt'")])),
                        ),
                    ],
                },
            ),
            (String::from("baz"), DependencyEntry { python: None, dependencies: Vec::new() }),
            (String::from("foo"), DependencyEntry { python: None, dependencies: Vec::new() }),
        ],
        hashes: Vec::new(),
    };
    let lock = Lock::from_document(&doc).unwrap();
    let deps = lock.dependencies();
    let mut keys: Vec<&str> = deps.iter().iter().map(|d| d.key()).collect();
    keys.sort();
    assert_eq!(keys, vec!["bar", "baz", "foo"]);

    let bar = deps.node(deps.index_of("bar").unwrap());
    assert_eq!(bar.python().unwrap().name(), "Bar");
    assert!(deps.node(deps.index_of("baz").unwrap()).python().is_none());
    assert!(deps.node(deps.index_of("foo").unwrap()).python().is_none());

    let edges = bar.dependencies();
    assert_eq!(edges.len(), 2);
    assert_eq!(deps.node(edges[0].target).key(), "baz");
    assert!(edges[0].marker.is_none());
    assert_eq!(deps.node(edges[1].target).key(), "foo");
    assert!(edges[1].marker.is_some());
}

#[test]
fn unresolvable_dependency_key_is_rejected() {
    // A document naming a missing child key fails, never silently drops it.
    let mut doc = empty_doc();
    doc.dependencies = vec![(
        String::from(""),
        DependencyEntry { python: None, dependencies: vec![(String::from("ghost"), None)] },
    )];
    match Lock::from_document(&doc) {
        Err(ParseError::UnresolvableDependencyKey(k)) => assert_eq!(k, "ghost"),
        other => panic!("unexpected result: {:?}", other.map(|_| ())),
    }
}

#[test]
fn unresolvable_source_name_is_rejected() {
    let mut doc = empty_doc();
    doc.dependencies = vec![(
        String::from("pkg"),
        DependencyEntry {
            python: Some(versioned("pkg", "1.0", Some("nowhere"))),
            dependencies: Vec::new(),
        },
    )];
    match Lock::from_document(&doc) {
        Err(ParseError::UnresolvableSourceName(n)) => assert_eq!(n, "nowhere"),
        other => panic!("unexpected result: {:?}", other.map(|_| ())),
    }
}

#[test]
fn redundant_package_fields_are_rejected() {
    let mut doc = empty_doc();
    let mut p = versioned("pkg", "1.0", None);
    p.path = Some(String::from("./pkg"));
    doc.dependencies =
        vec![(String::from("pkg"), DependencyEntry { python: Some(p), dependencies: Vec::new() })];
    match Lock::from_document(&doc) {
        Err(ParseError::RedundantPackageFields(k)) => assert_eq!(k, "pkg"),
        other => panic!("unexpected result: {:?}", other.map(|_| ())),
    }
}

#[test]
fn vcs_without_rev_is_rejected() {
    let mut doc = empty_doc();
    let mut p = package_entry("pkg");
    p.vcs = Some(String::from("git+https://example.com/repo"));
    doc.dependencies =
        vec![(String::from("pkg"), DependencyEntry { python: Some(p), dependencies: Vec::new() })];
    match Lock::from_document(&doc) {
        Err(ParseError::MissingField(f)) => assert_eq!(f, "rev"),
        other => panic!("unexpected result: {:?}", other.map(|_| ())),
    }
}

#[test]
fn package_without_specifier_is_rejected() {
    let mut doc = empty_doc();
    doc.dependencies = vec![(
        String::from("pkg"),
        DependencyEntry { python: Some(package_entry("pkg")), dependencies: Vec::new() },
    )];
    match Lock::from_document(&doc) {
        Err(ParseError::MissingField(f)) => assert_eq!(f, "version or url"),
        other => panic!("unexpected result: {:?}", other.map(|_| ())),
    }
}

#[test]
fn malformed_hash_is_rejected() {
    let mut doc = empty_doc();
    doc.hashes = vec![(String::from("pkg"), vec![String::from("nocolonhere")])];
    match Lock::from_document(&doc) {
        Err(ParseError::InvalidHash(s)) => assert_eq!(s, "nocolonhere"),
        other => panic!("unexpected result: {:?}", other.map(|_| ())),
    }
}

#[test]
fn malformed_url_is_rejected() {
    let mut doc = empty_doc();
    doc.sources = vec![SourceEntry {
        name: String::from("bad"),
        url: String::from("not a url"),
        no_verify_ssl: None,
    }];
    match Lock::from_document(&doc) {
        Err(ParseError::InvalidUrl(u)) => assert_eq!(u, "not a url"),
        other => panic!("unexpected result: {:?}", other.map(|_| ())),
    }
}

#[test]
fn duplicate_dependency_key_is_rejected() {
    let mut doc = empty_doc();
    doc.dependencies = vec![
        (String::from("a"), DependencyEntry { python: None, dependencies: Vec::new() }),
        (String::from("a"), DependencyEntry { python: None, dependencies: Vec::new() }),
    ];
    match Lock::from_document(&doc) {
        Err(ParseError::DuplicateField(k)) => assert_eq!(k, "a"),
        other => panic!("unexpected result: {:?}", other.map(|_| ())),
    }
}

#[test]
fn url_source_is_normalized() {
    // The source URL is stored as the URL parser's canonical serialization,
    // not as the raw text: the host is lowercased.
    let mut doc = empty_doc();
    doc.sources = vec![SourceEntry {
        name: String::from("pypi"),
        url: String::from("https://PyPI.org/simple"),
        no_verify_ssl: None,
    }];
    let lock = Lock::from_document(&doc).unwrap();
    assert_eq!(lock.sources().get("pypi").unwrap().base_url(), "https://pypi.org/simple");
}

#[test]
fn package_hashes_come_from_the_hashes_table() {
    let mut doc = empty_doc();
    doc.dependencies = vec![(
        String::from("pkg"),
        DependencyEntry {
            python: Some(versioned("pkg", "1.0", None)),
            dependencies: Vec::new(),
        },
    )];
    doc.hashes = vec![(
        String::from("pkg"),
        vec![
            String::from("sha256:aa"),
            String::from("sha256:bb"),
            String::from("sha256:aa"),
        ],
    )];
    let lock = Lock::from_document(&doc).unwrap();
    let node = lock.dependencies().node(0);
    let hashes = node.python().unwrap().hashes.as_ref().unwrap();
    // The repeated entry is deduplicated.
    assert_eq!(hashes.len(), 2);
    assert!(hashes.contains(&molt::hashes::Hash::new("sha256", "aa")));
    assert!(hashes.contains(&molt::hashes::Hash::new("sha256", "bb")));
}
