use index_gate::error::{ParseErrorKind, UnsupportedOperator};
use index_gate::specifier::{Operator, Specifier, SpecifierSet};
use index_gate::version::{Order, PreRelease, Version};

fn plain(versions: Vec<u32>) -> Version {
    Version {
        epoch: None,
        versions,
        pre_release: None,
        post_release: None,
        dev_release: None,
        local: None,
    }
}

fn parse(text: &str) -> Version {
    Version::from_str(text).unwrap()
}

#[test]
fn test_version_from_str() {
    let version_str = "2022!1.2.3rc3.post1.dev2";
    let version = Version::from_str(version_str);
    assert_eq!(
        version,
        Ok(Version {
            epoch: Some(2022),
            versions: vec![1, 2, 3],
            pre_release: Some(PreRelease::ReleaseCandidate(3)),
            post_release: Some(1),
            dev_release: Some(2),
            local: None,
        }),
    );
}

const SPECIFIER_SET_STR: &str = ">=1.2.3,<2";

fn make_specifier_set() -> SpecifierSet {
    SpecifierSet {
        specifiers: vec![
            Specifier { operator: Operator::GreaterThanOrEqual, version: plain(vec![1, 2, 3]) },
            Specifier { operator: Operator::LessThan, version: plain(vec![2]) },
        ],
    }
}

#[test]
fn test_specifier_set_from_str() {
    let specifier_set = SpecifierSet::from_str(SPECIFIER_SET_STR);
    assert_eq!(specifier_set, Ok(make_specifier_set()));
}

#[test]
fn test_specifier_set_to_string() {
    let specifier_set_str = make_specifier_set().to_string();
    assert_eq!(specifier_set_str, SPECIFIER_SET_STR);
}

#[test]
fn test_specifier_set_pre_releases() {
    let specifier_set = SpecifierSet::from_str(">=1.0.0").unwrap();
    let version = Version::from_str("1.0.0a0").unwrap();

    assert_eq!(specifier_set.contains(&version), Ok(false));
}

#[test]
fn version_round_trip_of_canonical_texts() {
    for text in [
        "2022!1.2.3rc3.post1.dev2",
        "0",
        "1.0",
        "10.20.30",
        "1.0a0",
        "1.0b12",
        "3.post4",
        "3.dev0",
        "1!2+local.label-1",
        "4294967295",
    ] {
        assert_eq!(parse(text).to_string(), text);
    }
}

#[test]
fn version_long_markers_are_normalised() {
    assert_eq!(parse("1.0alpha2").pre_release, Some(PreRelease::Alpha(2)));
    assert_eq!(parse("1.0beta3").pre_release, Some(PreRelease::Beta(3)));
    assert_eq!(parse("1.0alpha2").to_string(), "1.0a2");
    assert_eq!(parse("1.0beta3").to_string(), "1.0b3");
    assert_eq!(parse("007.01").versions, vec![7, 1]);
    assert_eq!(parse("007.01").to_string(), "7.1");
}

#[test]
fn version_local_label_is_kept() {
    let v = parse("1.2+ubuntu 1");
    assert_eq!(v.local, Some("ubuntu 1".to_string()));
    assert_eq!(v.versions, vec![1, 2]);
    let w = parse("1!0.dev3");
    assert_eq!(w.epoch, Some(1));
    assert_eq!(w.dev_release, Some(3));
    assert_eq!(w.post_release, None);
}

#[test]
fn version_local_label_takes_any_characters() {
    let v = parse("1.0+a\nb, c+d");
    assert_eq!(v.local, Some("a\nb, c+d".to_string()));
    assert_eq!(v.to_string(), "1.0+a\nb, c+d");
    assert_eq!(parse("2+\n").local, Some("\n".to_string()));
}

#[test]
fn version_syntax_errors() {
    for text in ["", "abc", "1.", ".1", "1.0a", "1.0rc", "!1", "1.0.post", "1.0+", "1.0 ", " 1.0", "1.0.dev1.post2", "v1.0", "1.0-1"] {
        let e = Version::from_str(text).unwrap_err();
        assert_eq!(e.kind, ParseErrorKind::Syntax, "{text:?}");
        assert_eq!(e.input, text);
    }
}

#[test]
fn version_number_errors() {
    for text in ["4294967296", "1.99999999999999999999", "4294967296!1", "1a4294967296", "1.post4294967296", "1.dev4294967296"] {
        let e = Version::from_str(text).unwrap_err();
        assert_eq!(e.kind, ParseErrorKind::NumberOutOfRange, "{text:?}");
        assert_eq!(e.input, text);
    }
}

#[test]
fn order_has_no_zero_padding() {
    assert_eq!(parse("1.0").compare(&parse("1.0.0")), Order::Less);
    assert_eq!(parse("1.0.0").compare(&parse("1.0")), Order::Greater);
    assert!(!parse("1.0").same_as(&parse("1.0.0")));
}

#[test]
fn order_steps() {
    assert_eq!(parse("1.0").compare(&parse("0!0.1")), Order::Less);
    assert_eq!(parse("1!1.0").compare(&parse("0!9.9")), Order::Greater);
    assert_eq!(parse("1.0").compare(&parse("2.0a1")), Order::Greater);
    assert_eq!(parse("2.0a1").compare(&parse("1.0")), Order::Less);
    assert_eq!(parse("1.2.3").compare(&parse("1.10")), Order::Less);
    assert_eq!(parse("1.0a5").compare(&parse("1.0b1")), Order::Less);
    assert_eq!(parse("1.0rc1").compare(&parse("1.0b9")), Order::Greater);
    assert_eq!(parse("1.0a1").compare(&parse("1.0a2")), Order::Less);
    assert_eq!(parse("1.0").compare(&parse("1.0.post0")), Order::Less);
    assert_eq!(parse("1.0.post2").compare(&parse("1.0.post1")), Order::Greater);
    assert_eq!(parse("1.0").compare(&parse("1.0.dev0")), Order::Less);
    assert_eq!(parse("1.0.dev3").compare(&parse("1.0.dev3")), Order::Equal);
}

#[test]
fn comparison_operators_follow_the_order() {
    assert!(parse("1.0") < parse("1.0.0"));
    assert!(parse("1.0") > parse("2.0a1"));
    assert!(parse("1.0") <= parse("1.0+x"));
    assert!(parse("1.0") >= parse("1.0+x"));
    assert_eq!(parse("1!0").partial_cmp(&parse("2")), Some(std::cmp::Ordering::Greater));
    assert!(PreRelease::Alpha(7) < PreRelease::Beta(0));
    assert!(PreRelease::ReleaseCandidate(1) > PreRelease::ReleaseCandidate(0));
}

#[test]
fn order_ignores_local_label_and_equality_does_not() {
    let a = parse("1.0+abc");
    let b = parse("1.0+xyz");
    assert_eq!(a.compare(&b), Order::Equal);
    assert!(!a.same_as(&b));
    assert!(a.same_as(&parse("1.0+abc")));
    assert_ne!(a, b);
}

#[test]
fn order_is_antisymmetric_on_samples() {
    let texts = ["1.0", "1.0.0", "2.0a1", "1!0", "1.0.post1", "1.0.dev1", "1.0rc1", "1.0+l"];
    for x in texts {
        for y in texts {
            let forth = parse(x).compare(&parse(y));
            let back = parse(y).compare(&parse(x));
            let expected = match forth {
                Order::Less => Order::Greater,
                Order::Equal => Order::Equal,
                Order::Greater => Order::Less,
            };
            assert_eq!(back, expected);
        }
    }
}

#[test]
fn pre_release_spelling_and_order() {
    assert_eq!(PreRelease::Alpha(1).to_string(), "a1");
    assert_eq!(PreRelease::Beta(20).to_string(), "b20");
    assert_eq!(PreRelease::ReleaseCandidate(0).to_string(), "rc0");
    assert_eq!(PreRelease::Alpha(9).compare(&PreRelease::Beta(0)), Order::Less);
    assert_eq!(PreRelease::Beta(3).compare(&PreRelease::Beta(3)), Order::Equal);
}

#[test]
fn specifier_parse_and_spelling() {
    let cases = [
        ("~=1.0", Operator::Compatible),
        ("==1.0", Operator::Equals),
        ("!=1.0", Operator::NotEquals),
        (">=1.0", Operator::GreaterThanOrEqual),
        ("<=1.0", Operator::LessThanOrEqual),
        (">1.0", Operator::GreaterThan),
        ("<1.0", Operator::LessThan),
    ];
    for (text, operator) in cases {
        let sp = Specifier::from_str(text).unwrap();
        assert_eq!(sp.operator, operator);
        assert_eq!(sp.version, plain(vec![1, 0]));
        assert_eq!(sp.to_string(), text);
        assert_eq!(operator.to_string() + "1.0", text);
    }
}

#[test]
fn specifier_errors() {
    assert_eq!(Specifier::from_str("1.0").unwrap_err().kind, ParseErrorKind::UnknownOperator);
    assert_eq!(Specifier::from_str("=1.0").unwrap_err().kind, ParseErrorKind::UnknownOperator);
    assert_eq!(Specifier::from_str("x>=1.0").unwrap_err().kind, ParseErrorKind::UnknownOperator);
    assert_eq!(Specifier::from_str(">=").unwrap_err().kind, ParseErrorKind::Syntax);
    assert_eq!(Specifier::from_str(">= 1.0").unwrap_err().kind, ParseErrorKind::Syntax);
    let e = Specifier::from_str("<4294967296").unwrap_err();
    assert_eq!(e.kind, ParseErrorKind::NumberOutOfRange);
    assert_eq!(e.input, "<4294967296");
}

#[test]
fn specifier_contains_by_operator() {
    let v = parse("1.5");
    let check = |text: &str| Specifier::from_str(text).unwrap().contains(&v);
    assert_eq!(check("==1.5"), Ok(true));
    assert_eq!(check("==1.5+local"), Ok(false));
    assert_eq!(check("!=1.5"), Ok(false));
    assert_eq!(check("!=1.6"), Ok(true));
    assert_eq!(check(">=1.5"), Ok(true));
    assert_eq!(check(">=1.5+local"), Ok(true));
    assert_eq!(check(">=1.6"), Ok(false));
    assert_eq!(check("<=1.5"), Ok(true));
    assert_eq!(check("<=1.4"), Ok(false));
    assert_eq!(check(">1.5"), Ok(false));
    assert_eq!(check(">1.4"), Ok(true));
    assert_eq!(check("<1.5"), Ok(false));
    assert_eq!(check("<1.5.0"), Ok(true));
    assert_eq!(check("~=1.5"), Err(UnsupportedOperator));
}

#[test]
fn specifier_set_is_best_effort() {
    let set = SpecifierSet::from_str(" >=1.0 ,bogus, <2 ,,~x").unwrap();
    assert_eq!(set.to_string(), ">=1.0,<2");
    let none = SpecifierSet::from_str("nothing,here").unwrap();
    assert_eq!(none.specifiers.len(), 0);
    assert_eq!(none.to_string(), "");
    assert_eq!(none.contains(&parse("0.0.1a1")), Ok(true));
    assert_eq!(SpecifierSet::from_str("").unwrap().specifiers.len(), 0);
    assert_eq!(SpecifierSet::parse("\t==3\u{a0}").to_string(), "==3");
}

#[test]
fn specifier_set_contains_is_conjunction() {
    let set = SpecifierSet::from_str(">=1.2.3,<2").unwrap();
    assert_eq!(set.contains(&parse("1.2.3")), Ok(true));
    assert_eq!(set.contains(&parse("1.9")), Ok(true));
    assert_eq!(set.contains(&parse("2")), Ok(false));
    assert_eq!(set.contains(&parse("1.2")), Ok(false));
    let first_fails = SpecifierSet::from_str(">=3,~=1.0").unwrap();
    assert_eq!(first_fails.contains(&parse("1.0")), Ok(false));
    let unsupported_first = SpecifierSet::from_str("~=1.0,>=3").unwrap();
    assert_eq!(unsupported_first.contains(&parse("1.0")), Err(UnsupportedOperator));
}
