use index_gate::error::UnsupportedOperator;
use index_gate::filter::{denied, filter, judge, PackageConfig, Verdict};
use index_gate::index::{PackageIndex, Release};
use index_gate::specifier::SpecifierSet;

fn release(name: &str) -> Release {
    Release {
        name: name.to_string(),
        uri: format!("https://files.example/{name}"),
        has_gpg: false,
        requires_python: None,
    }
}

fn listing(names: &[&str]) -> PackageIndex {
    PackageIndex { releases: names.iter().map(|n| release(n)).collect() }
}

fn policy(deny: &[&str], limits: &str) -> PackageConfig {
    PackageConfig {
        release_denylist: deny.iter().map(|n| n.to_string()).collect(),
        version_limits: limits.to_string(),
    }
}

fn names(index: &PackageIndex) -> Vec<String> {
    index.releases.iter().map(|r| r.name.clone()).collect()
}

#[test]
fn filter_scenario() {
    let index = listing(&["foo-1.0-py3-none-any.whl", "foo-0.9.tar.gz", "foo-1.0.egg"]);
    let out = filter(&index, &policy(&[], ">=1.0")).unwrap();
    assert_eq!(out.index, listing(&["foo-1.0-py3-none-any.whl"]));
    assert_eq!(out.unreadable.len(), 0);
}

#[test]
fn filter_keeps_order_and_other_files() {
    let index = listing(&[
        "foo-2.0.zip",
        "README.txt",
        "foo-1.5-py3-none-any.whl",
        "foo-3.0.sdist",
        "foo-0.1-py3-none-any.whl",
        "foo-1.2.tar.gz",
    ]);
    let out = filter(&index, &policy(&["foo-1.2.tar.gz"], ">=1.0,<3")).unwrap();
    assert_eq!(names(&out.index), vec!["foo-2.0.zip", "README.txt", "foo-1.5-py3-none-any.whl"]);
}

#[test]
fn filter_reports_unreadable_source_distributions() {
    let index = listing(&["foo-bar-1.0.tar.gz", "foo.zip", "foo-1.0.tar.gz", "foo-x.sdist"]);
    let out = filter(&index, &policy(&[], "")).unwrap();
    assert_eq!(names(&out.index), vec!["foo-1.0.tar.gz"]);
    assert_eq!(out.unreadable, vec!["foo-bar-1.0.tar.gz", "foo.zip", "foo-x.sdist"]);
}

#[test]
fn filter_denylist_is_exact() {
    let index = listing(&["foo-1.0.tar.gz", "foo-1.0.tar.gz.asc", "foo-1.0"]);
    let out = filter(&index, &policy(&["foo-1.0"], "")).unwrap();
    assert_eq!(names(&out.index), vec!["foo-1.0.tar.gz", "foo-1.0.tar.gz.asc"]);
    assert!(denied(&vec!["a".to_string(), "b".to_string()], "b"));
    assert!(!denied(&vec!["a".to_string(), "b".to_string()], "ab"));
}

#[test]
fn filter_fails_on_unsupported_operator() {
    let index = listing(&["notes.txt", "foo-1.0-py3-none-any.whl"]);
    assert_eq!(filter(&index, &policy(&[], "~=1.0")), Err(UnsupportedOperator));
    let untouched = listing(&["notes.txt", "foo-1.0.egg"]);
    assert_eq!(names(&filter(&untouched, &policy(&[], "~=1.0")).unwrap().index), vec!["notes.txt"]);
}

#[test]
fn verdicts() {
    let set = SpecifierSet::parse(">=1.0");
    let none: Vec<String> = vec![];
    assert_eq!(judge("foo-1.0-py3-none-any.whl", &none, &set), Verdict::Keep);
    assert_eq!(judge("foo-0.9-py3-none-any.whl", &none, &set), Verdict::Drop);
    assert_eq!(judge("foo-1.0a1-py3-none-any.whl", &none, &set), Verdict::Drop);
    assert_eq!(judge("foo-latest-py3-none-any.whl", &none, &set), Verdict::Keep);
    assert_eq!(judge("foo-0.9.tar.gz", &none, &set), Verdict::Drop);
    assert_eq!(judge("foo-1.1.zip", &none, &set), Verdict::Keep);
    assert_eq!(judge("foo-latest.sdist", &none, &set), Verdict::Unreadable);
    assert_eq!(judge("foo-9.9.egg", &none, &set), Verdict::Drop);
    assert_eq!(judge("foo-0.1.exe", &none, &set), Verdict::Keep);
    assert_eq!(judge("foo-0.1.exe", &vec!["foo-0.1.exe".to_string()], &set), Verdict::Drop);
    assert_eq!(judge("foo-1.0.zip", &none, &SpecifierSet::parse("~=1")), Verdict::Unsupported);
}
