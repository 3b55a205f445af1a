//! Entry-point parsing and collection.

use molt::entrypoints::{is_easy_install_script, is_pip_script, EntryPoint, EntryPoints, ScriptSection};

fn section(name: &str, entries: &[(&str, &str)]) -> ScriptSection {
    ScriptSection {
        name: Some(String::from(name)),
        entries: entries.iter().map(|(k, v)| (String::from(*k), String::from(*v))).collect(),
    }
}

#[test]
fn entry_point_parse_splits_and_trims() {
    let ep = EntryPoint::parse(" some.module : main ", false).unwrap();
    assert_eq!(ep.module(), "some.module");
    assert_eq!(ep.function(), "main");
    assert!(!ep.gui);
}

#[test]
fn entry_point_parse_without_separator_fails() {
    assert!(EntryPoint::parse("some.module.main", false).is_none());
}

#[test]
fn versioned_installer_scripts_are_recognized() {
    assert!(is_pip_script("pip3"));
    assert!(is_pip_script("pip3.7"));
    assert!(!is_pip_script("pip"));
    assert!(!is_pip_script("pip3.x"));
    assert!(!is_pip_script("pipx"));
    assert!(!is_pip_script("pip3.7.1"));
    assert!(is_easy_install_script("easy_install-3.7"));
    assert!(is_easy_install_script("easy_install-36"));
    assert!(!is_easy_install_script("easy_install"));
    assert!(!is_easy_install_script("easy_install-"));
}

#[test]
fn collection_filters_and_keys_by_trimmed_name() {
    let sections = vec![
        section(
            "console_scripts",
            &[
                ("foo ", "foo.cli:main"),
                ("pip3.7", "pip:main"),
                ("easy_install-3.7", "setuptools.command.easy_install:main"),
                ("pip", "pip:main"),
            ],
        ),
        section("gui_scripts", &[("fooview", "foo.gui:run")]),
        section("other_section", &[("ignored", "x:y")]),
    ];
    let eps = EntryPoints::new(&sections);
    assert_eq!(eps.len(), 3);
    let foo = eps.get("foo").unwrap();
    assert_eq!(foo.module(), "foo.cli");
    assert_eq!(foo.function(), "main");
    assert!(!foo.gui);
    // An unversioned `pip` script is not an installer-generated one.
    assert!(eps.get("pip").is_some());
    assert!(eps.get("pip3.7").is_none());
    assert!(eps.get("easy_install-3.7").is_none());
    let gui = eps.get("fooview").unwrap();
    assert!(gui.gui);
    assert!(eps.get("ignored").is_none());
}

#[test]
fn later_declaration_replaces_earlier() {
    let sections = vec![
        section("console_scripts", &[("tool", "first:main")]),
        section("console_scripts", &[("tool", "second:main")]),
    ];
    let eps = EntryPoints::new(&sections);
    assert_eq!(eps.len(), 1);
    assert_eq!(eps.get("tool").unwrap().module(), "second");
}

#[test]
fn values_without_separator_are_skipped() {
    let sections = vec![section("console_scripts", &[("broken", "no-colon-here")])];
    let eps = EntryPoints::new(&sections);
    assert_eq!(eps.len(), 0);
}
