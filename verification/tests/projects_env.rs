//! Project roots, derived paths, and the interpreter model.

use molt::projects::{Error, Project};
use molt::pythons::Interpreter;

fn interpreter(tag: Option<&str>) -> Interpreter {
    Interpreter::new("python3.7", "/usr/bin/python3.7", tag.map(String::from))
}

#[test]
fn interpreter_accessors() {
    let int = interpreter(Some("cp37-cp37m-linux_x86_64"));
    assert_eq!(int.name(), "python3.7");
    assert_eq!(int.location(), "/usr/bin/python3.7");
    assert_eq!(int.compatibility_tag().unwrap(), "cp37-cp37m-linux_x86_64");
}

#[test]
fn interpreter_without_tag_is_incompatible() {
    let int = interpreter(None);
    match int.compatibility_tag() {
        Err(molt::pythons::Error::IncompatibleInterpreterError(name)) => {
            assert_eq!(name, "python3.7")
        },
        Ok(tag) => panic!("unexpected tag: {:?}", tag),
    }
}

#[test]
fn project_paths_derive_from_root() {
    let project = Project::new(interpreter(Some("cp37-cp37m-linux_x86_64")), "/work/app");
    assert_eq!(project.persumed_lock_file_path(), "/work/app/molt.lock.json");
    assert_eq!(project.pypackages(), "/work/app/__pypackages__");
    assert_eq!(
        project.presumed_env_root().unwrap(),
        "/work/app/__pypackages__/cp37-cp37m-linux_x86_64",
    );
}

#[test]
fn site_packages_shape_follows_the_platform() {
    let int = interpreter(Some("cp37-cp37m-linux_x86_64"));
    assert_eq!(
        int.presumed_site_packages("/work/app/__pypackages__", false, "python3.7").unwrap(),
        "/work/app/__pypackages__/cp37-cp37m-linux_x86_64/lib/python3.7/site-packages",
    );
    assert_eq!(
        int.presumed_site_packages("/work/app/__pypackages__", true, "").unwrap(),
        "/work/app/__pypackages__/cp37-cp37m-linux_x86_64/Lib/site-packages",
    );
    assert!(interpreter(None).presumed_site_packages("/p", false, "python3.7").is_err());
}

#[test]
fn project_env_root_needs_a_tag() {
    let project = Project::new(interpreter(None), "/work/app");
    assert!(project.presumed_env_root().is_err());
}

#[test]
fn find_picks_the_innermost_marked_ancestor() {
    let candidates = vec![
        String::from("/work/app/sub"),
        String::from("/work/app"),
        String::from("/work"),
    ];
    let flags = vec![false, true, true];
    let project = Project::find(&candidates, &flags, interpreter(None)).unwrap();
    assert_eq!(project.root, "/work/app");
}

#[test]
fn find_without_marker_reports_the_start() {
    let candidates = vec![String::from("/work/app"), String::from("/work")];
    let flags = vec![false, false];
    match Project::find(&candidates, &flags, interpreter(None)) {
        Err(Error::ProjectNotFoundError(d)) => assert_eq!(d, "/work/app"),
        other => panic!("unexpected outcome: {:?}", other.map(|_| ())),
    }
}
