//! Traversal, marker gating, and installation planning.

use molt::deps::Marker;
use molt::locks::{DependencyEntry, Lock, LockDocument, PackageEntry};
use molt::sync::{Error, Step, Synchronizer, Traversal};

fn versioned(name: &str, version: &str) -> PackageEntry {
    PackageEntry {
        name: String::from(name),
        version: Some(String::from(version)),
        source: None,
        url: None,
        no_verify_ssl: None,
        path: None,
        vcs: None,
        rev: None,
    }
}

fn entry(python: Option<PackageEntry>, deps: Vec<(&str, Option<Marker>)>) -> DependencyEntry {
    DependencyEntry {
        python,
        dependencies: deps.into_iter().map(|(k, m)| (String::from(k), m)).collect(),
    }
}

fn marker(conds: &[&str]) -> Marker {
    Marker::from(conds.iter().map(|c| String::from(*c)).collect())
}

/// The end-to-end document: a default section needing `bar`, which needs
/// `baz` only on Windows.
fn scenario_doc() -> LockDocument {
    LockDocument {
        sources: vec![molt::locks::SourceEntry {
            name: String::from("pypi"),
            url: String::from("https://pypi.org/simple"),
            no_verify_ssl: None,
        }],
        dependencies: vec![
            (String::from(""), entry(None, vec![("bar", None)])),
            (
                String::from("bar"),
                entry(Some(versioned("bar", "1.0")), vec![("baz", Some(marker(&["os_name == 'nt'"])))]),
            ),
            (String::from("baz"), entry(Some(versioned("baz", "2.0")), vec![])),
        ],
        hashes: Vec::new(),
    }
}

/// Drive the traversal, answering every marker with `verdict`; collect the
/// expressions that were evaluated.
fn drive(
    sync: &Synchronizer,
    t: &mut Traversal,
    verdict: bool,
    asked: &mut Vec<String>,
) -> Option<Error> {
    loop {
        match t.next(sync.lock()) {
            Step::Continue => {},
            Step::NeedsMarker(expr) => {
                asked.push(expr);
                t.answer(sync.lock(), verdict);
            },
            Step::Failed(e) => return Some(e),
            Step::Done => return None,
        }
    }
}

fn resolved_keys(sync: &Synchronizer, t: &Traversal) -> Vec<String> {
    t.resolved_nodes()
        .iter()
        .map(|&i| String::from(sync.lock().dependencies().node(i).key()))
        .collect()
}

#[test]
fn scenario_non_windows_resolves_bar_only() {
    let lock = Lock::from_document(&scenario_doc()).unwrap();
    let sync = Synchronizer::new(lock);
    let mut t = sync.begin(true, &Vec::new());
    let mut asked = Vec::new();
    let outcome = drive(&sync, &mut t, false, &mut asked);
    assert!(outcome.is_none());
    assert_eq!(asked, vec![String::from("(os_name == 'nt')")]);
    assert_eq!(resolved_keys(&sync, &t), vec![String::from("bar")]);
}

#[test]
fn scenario_windows_resolves_bar_and_baz() {
    let lock = Lock::from_document(&scenario_doc()).unwrap();
    let sync = Synchronizer::new(lock);
    let mut t = sync.begin(true, &Vec::new());
    let mut asked = Vec::new();
    let outcome = drive(&sync, &mut t, true, &mut asked);
    assert!(outcome.is_none());
    let mut keys = resolved_keys(&sync, &t);
    keys.sort();
    assert_eq!(keys, vec![String::from("bar"), String::from("baz")]);
}

#[test]
fn missing_default_section_fails_before_any_install() {
    let doc = LockDocument {
        sources: Vec::new(),
        dependencies: vec![(String::from("bar"), entry(Some(versioned("bar", "1.0")), vec![]))],
        hashes: Vec::new(),
    };
    let lock = Lock::from_document(&doc).unwrap();
    let sync = Synchronizer::new(lock);
    let mut t = sync.begin(true, &Vec::new());
    let mut asked = Vec::new();
    match drive(&sync, &mut t, true, &mut asked) {
        Some(Error::DefaultSectionNotFound) => {},
        other => panic!("unexpected outcome: {:?}", other),
    }
    assert!(t.has_failed());
    // Nothing was resolved, so there is nothing to install.
    assert!(t.resolved_nodes().is_empty());
}

#[test]
fn missing_extra_section_fails_with_its_name() {
    let doc = LockDocument {
        sources: Vec::new(),
        dependencies: vec![(String::from(""), entry(None, vec![]))],
        hashes: Vec::new(),
    };
    let lock = Lock::from_document(&doc).unwrap();
    let sync = Synchronizer::new(lock);
    let mut t = sync.begin(true, &vec![String::from("dev")]);
    let mut asked = Vec::new();
    match drive(&sync, &mut t, true, &mut asked) {
        Some(Error::ExtraSectionNotFound(name)) => assert_eq!(name, "dev"),
        other => panic!("unexpected outcome: {:?}", other),
    }
}

#[test]
fn extra_section_node_is_keyed_with_brackets() {
    let doc = LockDocument {
        sources: Vec::new(),
        dependencies: vec![
            (String::from(""), entry(None, vec![])),
            (String::from("[dev]"), entry(None, vec![("tool", None)])),
            (String::from("tool"), entry(Some(versioned("tool", "3.0")), vec![])),
        ],
        hashes: Vec::new(),
    };
    let lock = Lock::from_document(&doc).unwrap();
    let sync = Synchronizer::new(lock);
    let mut t = sync.begin(true, &vec![String::from("dev")]);
    let mut asked = Vec::new();
    assert!(drive(&sync, &mut t, true, &mut asked).is_none());
    assert_eq!(resolved_keys(&sync, &t), vec![String::from("tool")]);
}

#[test]
fn empty_marker_always_excludes_unmarked_always_includes() {
    let doc = LockDocument {
        sources: Vec::new(),
        dependencies: vec![
            (
                String::from(""),
                entry(None, vec![("never", Some(marker(&[]))), ("always", None)]),
            ),
            (String::from("never"), entry(Some(versioned("never", "1.0")), vec![])),
            (String::from("always"), entry(Some(versioned("always", "1.0")), vec![])),
        ],
        hashes: Vec::new(),
    };
    let lock = Lock::from_document(&doc).unwrap();
    let sync = Synchronizer::new(lock);
    let mut t = sync.begin(true, &Vec::new());
    let mut asked = Vec::new();
    assert!(drive(&sync, &mut t, true, &mut asked).is_none());
    // The empty marker never reached the evaluator, and excluded its edge.
    assert!(asked.is_empty());
    assert_eq!(resolved_keys(&sync, &t), vec![String::from("always")]);
}

#[test]
fn shared_child_resolves_exactly_once() {
    let doc = LockDocument {
        sources: Vec::new(),
        dependencies: vec![
            (String::from(""), entry(None, vec![("shared", None)])),
            (String::from("[extra]"), entry(None, vec![("shared", None)])),
            (String::from("shared"), entry(Some(versioned("shared", "1.0")), vec![])),
        ],
        hashes: Vec::new(),
    };
    let lock = Lock::from_document(&doc).unwrap();
    let sync = Synchronizer::new(lock);
    let mut t = sync.begin(true, &vec![String::from("extra")]);
    let mut asked = Vec::new();
    assert!(drive(&sync, &mut t, true, &mut asked).is_none());
    assert_eq!(resolved_keys(&sync, &t), vec![String::from("shared")]);
}

#[test]
fn cyclic_graph_terminates() {
    let doc = LockDocument {
        sources: Vec::new(),
        dependencies: vec![
            (String::from(""), entry(None, vec![("a", None)])),
            (String::from("a"), entry(Some(versioned("a", "1.0")), vec![("b", None)])),
            (String::from("b"), entry(Some(versioned("b", "1.0")), vec![("a", None)])),
        ],
        hashes: Vec::new(),
    };
    let lock = Lock::from_document(&doc).unwrap();
    let sync = Synchronizer::new(lock);
    let mut t = sync.begin(true, &Vec::new());
    let mut asked = Vec::new();
    assert!(drive(&sync, &mut t, true, &mut asked).is_none());
    assert_eq!(resolved_keys(&sync, &t), vec![String::from("a"), String::from("b")]);
}

#[test]
fn plan_renders_requirements_and_hash_gate() {
    let mut doc = scenario_doc();
    doc.hashes = vec![(String::from("bar"), vec![String::from("sha256:aa")])];
    let lock = Lock::from_document(&doc).unwrap();
    let sync = Synchronizer::new(lock);
    let mut t = sync.begin(true, &Vec::new());
    let mut asked = Vec::new();
    assert!(drive(&sync, &mut t, true, &mut asked).is_none());
    let plan = sync.plan(&t);
    assert_eq!(plan.len(), 2);
    let bar = plan.iter().find(|s| s.key == "bar").unwrap();
    assert!(bar.require_hashes);
    assert_eq!(bar.requirement_txt, "bar == 1.0 --hash sha256:aa");
    let baz = plan.iter().find(|s| s.key == "baz").unwrap();
    assert!(!baz.require_hashes);
    assert_eq!(baz.requirement_txt, "baz == 2.0");
}

#[test]
fn install_args_follow_the_invocation_contract() {
    let plain = Synchronizer::install_args("/tmp/req.txt", "/env", false);
    assert_eq!(
        plain,
        vec![
            String::from("-m"),
            String::from("pip"),
            String::from("install"),
            String::from("--requirement"),
            String::from("/tmp/req.txt"),
            String::from("--prefix"),
            String::from("/env"),
            String::from("--no-deps"),
        ],
    );
    let hashed = Synchronizer::install_args("/tmp/req.txt", "/env", true);
    assert_eq!(hashed.len(), 9);
    assert_eq!(hashed[8], "--require-hashes");
}

#[test]
fn install_env_disables_pip_noise() {
    let env = Synchronizer::install_env();
    assert_eq!(
        env,
        vec![
            (String::from("PIP_DISABLE_PIP_VERSION_CHECK"), String::from("1")),
            (String::from("PIP_NO_WARN_SCRIPT_LOCATION"), String::from("0")),
            (String::from("PIP_REQUIRE_VIRTUALENV"), String::from("0")),
        ],
    );
}

#[test]
fn marker_expression_joins_conditions() {
    assert_eq!(marker(&["os_name == 'nt'"]).expression(), "(os_name == 'nt')");
    assert_eq!(
        marker(&["os_name != 'nt'", "python_version < '3.5'"]).expression(),
        "(os_name != 'nt') or (python_version < '3.5')",
    );
    assert_eq!(marker(&[]).expression(), "");
}

#[test]
fn marker_output_interpretation() {
    assert_eq!(Synchronizer::interpret_marker_output("True", "").unwrap(), true);
    assert_eq!(Synchronizer::interpret_marker_output("False", "").unwrap(), false);
    match Synchronizer::interpret_marker_output("true", "bad syntax") {
        Err(Error::InvalidMarkerError(out, diag)) => {
            assert_eq!(out, "true");
            assert_eq!(diag, "bad syntax");
        },
        other => panic!("unexpected outcome: {:?}", other),
    }
}

#[test]
fn conclude_aggregates_failures() {
    assert!(Synchronizer::conclude(Vec::new()).is_ok());
    let failures = vec![(String::from("bar"), Some(1)), (String::from("baz"), None)];
    match Synchronizer::conclude(failures.clone()) {
        Err(Error::InstallCommandError(v)) => assert_eq!(v, failures),
        other => panic!("unexpected outcome: {:?}", other.map(|_| ())),
    }
}
