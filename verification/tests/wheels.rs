use index_gate::error::ParseErrorKind;
use index_gate::wheel::WheelInfo;

#[test]
fn wheel_round_trip() {
    let name = "foo-1.0-py3-none-any.whl";
    let wheel = WheelInfo::from_str(name).unwrap();
    assert_eq!(
        wheel,
        WheelInfo {
            distribution: "foo".to_string(),
            version: "1.0".to_string(),
            build_tag: None,
            python_tag: "py3".to_string(),
            abi_tag: "none".to_string(),
            platform_tag: "any".to_string(),
        },
    );
    assert_eq!(wheel.to_string(), name);
}

#[test]
fn wheel_extra_hyphens_go_to_the_distribution() {
    let wheel = WheelInfo::from_str("my-pkg-2.1-1-cp39-cp39-linux_x86_64.whl").unwrap();
    assert_eq!(wheel.distribution, "my-pkg-2.1");
    assert_eq!(wheel.version, "1");
    assert_eq!(wheel.build_tag, None);
    assert_eq!(wheel.python_tag, "cp39");
    assert_eq!(wheel.abi_tag, "cp39");
    assert_eq!(wheel.platform_tag, "linux_x86_64");
    assert_eq!(wheel.to_string(), "my-pkg-2.1-1-cp39-cp39-linux_x86_64.whl");
}

#[test]
fn wheel_fields_are_never_empty() {
    let wheel = WheelInfo::from_str("a--b-c-d-e.whl").unwrap();
    assert_eq!(wheel.distribution, "a-");
    assert_eq!(wheel.version, "b");
    let tail = WheelInfo::from_str("a-b-c-d-e-.whl").unwrap();
    assert_eq!(tail.distribution, "a");
    assert_eq!(tail.platform_tag, "e-");
}

#[test]
fn wheel_with_build_tag_is_spelled_with_six_fields() {
    let wheel = WheelInfo {
        distribution: "foo".to_string(),
        version: "1.0".to_string(),
        build_tag: Some("7".to_string()),
        python_tag: "py3".to_string(),
        abi_tag: "none".to_string(),
        platform_tag: "any".to_string(),
    };
    assert_eq!(wheel.to_string(), "foo-1.0-7-py3-none-any.whl");
}

#[test]
fn wheel_fields_take_any_characters() {
    let name = "fo\no-1.0 x-py3-no\nne-any.whl";
    let wheel = WheelInfo::from_str(name).unwrap();
    assert_eq!(wheel.distribution, "fo\no");
    assert_eq!(wheel.version, "1.0 x");
    assert_eq!(wheel.abi_tag, "no\nne");
    assert_eq!(wheel.to_string(), name);
}

#[test]
fn wheel_errors() {
    for name in ["", ".whl", "foo-1.0.tar.gz", "foo-1.0-py3-none.whl", "foo-1.0-py3-none-any.WHL", "-1.0-py3-none-any.whl", "foo-1.0-py3-none-.whl", "foo-1.0-py3--any.whl", "a-b-c-d-e"] {
        let e = WheelInfo::from_str(name).unwrap_err();
        assert_eq!(e.kind, ParseErrorKind::Syntax, "{name:?}");
        assert_eq!(e.input, name);
    }
}
