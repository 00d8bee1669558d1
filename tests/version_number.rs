use versionitis::version_number::VersionNumber;

#[test]
fn version_number_simple_equality() {
    let sv1 = VersionNumber::semver(0, 1, 0);
    let sv2 = VersionNumber::semver(0, 1, 0);
    assert_eq!(sv1, sv2);
}

#[test]
fn version_number_simple_inequality_lt() {
    let sv1 = VersionNumber::semver(0, 0, 1);
    let sv2 = VersionNumber::semver(0, 1, 0);
    assert!(sv1 < sv2);
}

#[test]
fn version_number_simple_inequality_gt() {
    let sv1 = VersionNumber::semver(1, 0, 1);
    let sv2 = VersionNumber::semver(0, 1, 0);
    assert!(sv1 > sv2);
}

#[test]
fn version_number_complex_inequality_lt() {
    let sv1 = VersionNumber::semver(0, 1, 0);
    let sv2 = VersionNumber::semver4(0, 1, 0, 0);
    assert!(sv1 < sv2);
}

#[test]
fn version_number_complex_inequality_lt2() {
    let sv1 = VersionNumber::semver(0, 1, 0);
    let sv2 = VersionNumber::semver4(0, 1, 0, 1);
    assert!(sv1 < sv2);
}

#[test]
fn version_number_complex_inequality_gt() {
    let sv1 = VersionNumber::semver(0, 1, 1);
    let sv2 = VersionNumber::semver4(0, 1, 0, 1);
    assert!(sv1 > sv2);
}

#[test]
fn version_number_version() {
    let sv2 = VersionNumber::semver4(0, 1, 0, 1);
    assert_eq!(sv2.to_string().as_str(), "0.1.0.1");
}

#[test]
fn version_number_from_str() {
    let sv1 = VersionNumber::from_str("0.1.0.1").unwrap();
    let sv2 = VersionNumber::semver4(0, 1, 0, 1);
    assert_eq!(sv1, sv2);
}

#[test]
fn implements_display_trait() {
    let v = VersionNumber::semver(0, 1, 0);
    let vs = v.to_string();
    assert_eq!(vs, "0.1.0".to_string());
}

#[test]
fn can_generate_versnion_nubmer_via_vernum_macro() {
    let sv1 = VersionNumber::from_string("0.1.0").unwrap();
    let sv2 = VersionNumber::from_string("0.1.0").unwrap();
    assert_eq!(sv1, sv2);
}

#[test]
fn two_instances_with_same_inputs_are_equal() {
    let sv1 = VersionNumber::semver(0, 1, 0);
    let sv2 = VersionNumber::semver(0, 1, 0);
    assert_eq!(sv1, sv2);
}

#[test]
fn smaller_vernum_is_less_than_larger_vernum() {
    let sv1 = VersionNumber::semver(0, 0, 1);
    let sv2 = VersionNumber::semver(0, 1, 0);
    assert!(sv1 < sv2);
}

#[test]
fn larger_vernum_is_greater_than_smaller_vernum() {
    let sv1 = VersionNumber::semver(1, 0, 1);
    let sv2 = VersionNumber::semver(0, 1, 0);
    assert!(sv1 > sv2);
}

#[test]
fn implements_to_string() {
    let package = String::from("0.1.0.1");
    let sv = VersionNumber::semver4(0, 1, 0, 1);
    let result = sv.to_string();
    assert_eq!(result, package);
}

#[test]
fn implements_debug() {
    let package = String::from("0.1.0.1");
    let sv = VersionNumber::semver4(0, 1, 0, 1);
    let result = sv.to_string();
    assert_eq!(result, package);
}

#[test]
fn can_generate_versionnumber_from_str() {
    let package = String::from("0.1.0.1");
    let sv1 = VersionNumber::from_string(&package).unwrap();
    let sv2 = VersionNumber::semver4(0, 1, 0, 1);
    assert_eq!(sv1, sv2);
}

#[test]
fn parse_then_render_keeps_every_component() {
    for text in ["0.1", "0.1.0", "1.2.3.4", "65535", "10.200.3000"] {
        let v = VersionNumber::from_str(text).unwrap();
        assert_eq!(v.to_string(), text);
        assert_eq!(v.name(), text);
    }
    assert_ne!(VersionNumber::from_str("0.1").unwrap(), VersionNumber::from_str("0.1.0").unwrap());
}

#[test]
fn leading_zeros_render_canonically() {
    let v = VersionNumber::from_str("01.002").unwrap();
    assert_eq!(v.value(), vec![1, 2]);
    assert_eq!(v.to_string(), "1.2");
}

#[test]
fn prefix_sorts_first() {
    let short = VersionNumber::new(vec![1, 2]);
    let long = VersionNumber::new(vec![1, 2, 0]);
    assert!(short < long);
    assert!(VersionNumber::new(vec![]) < VersionNumber::new(vec![0]));
}

#[test]
fn malformed_versions_are_rejected() {
    for text in ["", ".", "1.", ".1", "1..2", "a.b", "1.2-3", "65536", "1.+2", " 1.2"] {
        match VersionNumber::from_str(text) {
            Err(versionitis::errors::VersionitisError::ParseError(t, _)) => assert_eq!(t, text),
            other => panic!("{:?} accepted as {:?}", text, other),
        }
    }
}

#[test]
fn largest_component_is_accepted() {
    let v = VersionNumber::from_str("65535.0").unwrap();
    assert_eq!(v.value(), vec![65535, 0]);
}
