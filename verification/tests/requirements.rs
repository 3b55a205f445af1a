//! Requirement-line rendering per specifier kind.

use molt::hashes::Hashes;
use molt::pypackages::{PythonPackage, PythonPackageSpecifier};
use molt::sources::Source;

#[test]
fn version_without_source() {
    let pkg = PythonPackage::new(
        "foo",
        PythonPackageSpecifier::Version(String::from("1.0"), None),
        None,
    );
    let (hashed, line) = pkg.to_requirement_txt();
    assert!(!hashed);
    assert_eq!(line, "foo == 1.0");
}

#[test]
fn version_with_trusted_source() {
    let source = Source::new("local", "http://pypi.local/simple", true);
    let pkg = PythonPackage::new(
        "foo",
        PythonPackageSpecifier::Version(String::from("1.0"), Some(source)),
        None,
    );
    let (hashed, line) = pkg.to_requirement_txt();
    assert!(!hashed);
    assert_eq!(
        line,
        "foo == 1.0 --index-url=http://pypi.local/simple --trusted-host=pypi.local",
    );
}

#[test]
fn version_with_verified_source_has_no_trusted_host() {
    let source = Source::new("pypi", "https://pypi.org/simple", false);
    let pkg = PythonPackage::new(
        "foo",
        PythonPackageSpecifier::Version(String::from("1.0"), Some(source)),
        None,
    );
    let (_, line) = pkg.to_requirement_txt();
    assert_eq!(line, "foo == 1.0 --index-url=https://pypi.org/simple");
}

#[test]
fn url_specifier_gets_egg_fragment() {
    let pkg = PythonPackage::new(
        "foo",
        PythonPackageSpecifier::Url(String::from("https://example.com/foo.tar.gz"), false),
        None,
    );
    let (hashed, line) = pkg.to_requirement_txt();
    assert!(!hashed);
    assert_eq!(line, "https://example.com/foo.tar.gz#egg=foo");
}

#[test]
fn url_specifier_replaces_existing_fragment() {
    let pkg = PythonPackage::new(
        "foo",
        PythonPackageSpecifier::Url(String::from("https://example.com/foo.tar.gz#old"), true),
        None,
    );
    let (_, line) = pkg.to_requirement_txt();
    assert_eq!(line, "https://example.com/foo.tar.gz#egg=foo --trusted-host=example.com");
}

#[test]
fn path_specifier_is_verbatim() {
    let pkg = PythonPackage::new(
        "foo",
        PythonPackageSpecifier::Path(String::from("./vendor/foo")),
        None,
    );
    let (_, line) = pkg.to_requirement_txt();
    assert_eq!(line, "./vendor/foo");
}

#[test]
fn vcs_specifier_appends_revision_to_path() {
    let pkg = PythonPackage::new(
        "foo",
        PythonPackageSpecifier::Vcs(
            String::from("git+https://github.com/a/foo"),
            String::from("abc123"),
        ),
        None,
    );
    let (_, line) = pkg.to_requirement_txt();
    assert_eq!(line, "git+https://github.com/a/foo@abc123#egg=foo");
}

#[test]
fn vcs_specifier_without_host_still_renders() {
    // A canonical hostless URL: replacing its path keeps the serializer's
    // `/.` guard, and the rendered line carries the revision and fragment.
    let pkg = PythonPackage::new(
        "foo",
        PythonPackageSpecifier::Vcs(String::from("web+demo:/.//p"), String::from("abc")),
        None,
    );
    let (_, line) = pkg.to_requirement_txt();
    assert_eq!(line, "web+demo:/.//p@abc#egg=foo");
}

#[test]
fn non_canonical_url_renders_verbatim() {
    // A hand-built package whose URL the parser rejects: the raw string is
    // rendered, and no trusted host can be derived from it.
    let pkg = PythonPackage::new(
        "foo",
        PythonPackageSpecifier::Url(String::from("not a url"), true),
        None,
    );
    let (hashed, line) = pkg.to_requirement_txt();
    assert!(!hashed);
    assert_eq!(line, "not a url");
}

#[test]
fn hashes_render_and_gate_require_hashes() {
    let mut hashes = Hashes::new();
    hashes.add(molt::hashes::Hash::new("sha256", "aa"));
    hashes.add(molt::hashes::Hash::new("sha256", "bb"));
    let pkg = PythonPackage::new(
        "foo",
        PythonPackageSpecifier::Version(String::from("1.0"), None),
        Some(hashes),
    );
    let (hashed, line) = pkg.to_requirement_txt();
    assert!(hashed);
    assert_eq!(line, "foo == 1.0 --hash sha256:aa --hash sha256:bb");
}

#[test]
fn empty_hash_set_does_not_gate_require_hashes() {
    // A hashes entry with no surviving hash must not trigger the installer's
    // hash requirement: there would be nothing to match against.
    let pkg = PythonPackage::new(
        "foo",
        PythonPackageSpecifier::Version(String::from("1.0"), None),
        Some(Hashes::new()),
    );
    let (hashed, line) = pkg.to_requirement_txt();
    assert!(!hashed);
    assert_eq!(line, "foo == 1.0");
}
