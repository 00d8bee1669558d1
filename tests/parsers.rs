use versionitis::errors::VersionitisError;
use versionitis::interval::Interval;
use versionitis::interval::Range::{HalfOpen, Open, Single};
use versionitis::package::Package;
use versionitis::package_interval::PackageInterval;
use versionitis::package_interval_parser::PackageIntervalParser;
use versionitis::package_version_parser::PackageVersionParser;
use versionitis::vernum_interval_parser::VerNumIntervalParser;
use versionitis::version_number::VersionNumber;
use versionitis::version_number_interval::VersionNumberInterval;

type PI = PackageInterval;
type VI = VersionNumberInterval;

#[test]
fn package_interval_parser_single_interval() {
    let test = PackageIntervalParser::parse("foo: '1.2.3'");
    let result = PI::from_range(&Single("foo-1.2.3"));
    assert_eq!(test, result);
}

#[test]
fn single_interval_spaces() {
    let test = PackageIntervalParser::parse("foo:   '1.2.3'");
    let result = PI::from_range(&Single("foo-1.2.3"));
    assert_eq!(test, result);
}

#[test]
fn single_interval_double_quote() {
    let test = PackageIntervalParser::parse(r#"foo: "1.2.3""#);
    let result = PI::from_range(&Single("foo-1.2.3"));
    assert_eq!(test, result);
}

#[test]
fn half_open_interval() {
    let test = PackageIntervalParser::parse("foo: '1.2.3<2.0.0'");
    let result = PI::from_range(&HalfOpen("foo-1.2.3", "foo-2.0.0"));
    assert_eq!(test, result);
}

#[test]
fn half_open_interval_double_quote() {
    let test = PackageIntervalParser::parse(r#"foo: "1.2.3<2.0.0""#);
    let result = PI::from_range(&HalfOpen("foo-1.2.3", "foo-2.0.0"));
    assert_eq!(test, result);
}

#[test]
fn package_interval_parser_half_open_interval_spaces() {
    let test = PackageIntervalParser::parse("foo:  '1.2.3 < 2.0.0'");
    let result = PI::from_range(&HalfOpen("foo-1.2.3", "foo-2.0.0"));
    assert_eq!(test, result);
}

#[test]
fn open_interval() {
    let test = PackageIntervalParser::parse("foo: '1.2.3<=2.0.0'");
    let result = PI::from_range(&Open("foo-1.2.3", "foo-2.0.0"));
    assert_eq!(test, result);
}

#[test]
fn package_interval_parser_open_interval_spaces() {
    let test = PackageIntervalParser::parse("foo: '1.2.3 <= 2.0.0'");
    let result = PI::from_range(&Open("foo-1.2.3", "foo-2.0.0"));
    assert_eq!(test, result);
}

#[test]
fn open_interval_douple_quote() {
    let test = PackageIntervalParser::parse(r#"foo: "1.2.3 <= 2.0.0""#);
    let result = PI::from_range(&Open("foo-1.2.3", "foo-2.0.0"));
    assert_eq!(test, result);
}

#[test]
fn vernum_interval_parser_single_interval() {
    let test = VerNumIntervalParser::parse("1.2.3");
    let result = VI::from_range(&Single("1.2.3"));
    assert_eq!(test, result);
}

#[test]
fn half_open_interval_nospaces() {
    let test = VerNumIntervalParser::parse("1.2.3<2.0.0");
    let result = VI::from_range(&HalfOpen("1.2.3", "2.0.0"));
    assert_eq!(test, result);
}

#[test]
fn vernum_interval_parser_half_open_interval_spaces() {
    let test = VerNumIntervalParser::parse("1.2.3 < 2.0.0");
    let result = VI::from_range(&HalfOpen("1.2.3", "2.0.0"));
    assert_eq!(test, result);
}

#[test]
fn open_interval_nospaces() {
    let test = VerNumIntervalParser::parse("1.2.3<=2.0.0");
    let result = VI::from_range(&Open("1.2.3", "2.0.0"));
    assert_eq!(test, result);
}

#[test]
fn vernum_interval_parser_open_interval_spaces() {
    let test = VerNumIntervalParser::parse("1.2.3 <= 2.0.0");
    let result = VI::from_range(&Open("1.2.3", "2.0.0"));
    assert_eq!(test, result);
}

#[test]
fn can_parse_name_and_version() {
    let result = PackageVersionParser::parse("foo-1.2.3");
    if let Ok((name, version)) = result {
        assert_eq!(name, "foo");
        assert_eq!(version, "1.2.3");
    } else {
        assert_eq!(result, Err(VersionitisError::SerdeYamlError("NO WAY".to_string())));
    }
}

#[test]
fn can_parse_name_with_underscores() {
    let result = PackageVersionParser::parse("foo_bar-1.2.3");
    if let Ok((name, version)) = result {
        assert_eq!(name, "foo_bar");
        assert_eq!(version, "1.2.3");
    } else {
        assert_eq!(result, Err(VersionitisError::SerdeYamlError("NO WAY".to_string())));
    }
}

#[test]
fn name_cannot_start_with_digit() {
    let result = PackageVersionParser::parse("1foo_bar-1.2.3");
    assert!(result.is_err());
}

#[test]
fn name_cannot_contain_multiple_contiguous_underscores() {
    let result = PackageVersionParser::parse("foo__bar-1.2.3");
    assert!(result.is_err());
}

#[test]
fn name_cannot_end_with_underscore() {
    let result = PackageVersionParser::parse("foo_bar_-1.2.3");
    assert!(result.is_err());
}

#[test]
fn name_cannot_start_with_space() {
    let result = PackageVersionParser::parse(" foo_bar_1.2.3 ");
    assert!(result.is_err());
}

#[test]
fn can_pass_in_string_reference() {
    let pkg = "foo_bar-1.2.3".to_string();
    let result = PackageVersionParser::parse(&pkg);
    if let Ok((name, version)) = result {
        assert_eq!(name, "foo_bar");
        assert_eq!(version, "1.2.3");
    } else {
        assert_eq!(result, Err(VersionitisError::SerdeYamlError("NO WAY".to_string())));
    }
}

#[test]
fn convert_single_to_range() {
    let pi = VI::from_range(&Single("1.2.3")).unwrap();
    let result = pi.to_range();
    assert_eq!(result, "1.2.3");
}

#[test]
fn convert_open_to_range() {
    let pi = VI::from_range(&Open("1.2.3", "2.0.0")).unwrap();
    let result = pi.to_range();
    assert_eq!(result, "1.2.3<=2.0.0");
}

#[test]
fn convert_half_open_to_range() {
    let pi = VI::from_range(&HalfOpen("1.2.3", "2.0.0")).unwrap();
    let result = pi.to_range();
    assert_eq!(result, "1.2.3<2.0.0");
}

#[test]
fn can_convert_a_single_to_range() {
    let pi = VI::from_range(&Single("1.2.3")).unwrap();
    let result = pi.to_range();
    assert_eq!(result, "1.2.3");
}

#[test]
fn can_convert_an_open_to_range() {
    let pi = VI::from_range(&Open("1.2.3", "2.0.0")).unwrap();
    let result = pi.to_range();
    assert_eq!(result, "1.2.3<=2.0.0");
}

#[test]
fn can_convert_a_half_open_to_range() {
    let pi = VI::from_range(&HalfOpen("1.2.3", "2.0.0")).unwrap();
    let result = pi.to_range();
    assert_eq!(result, "1.2.3<2.0.0");
}

#[test]
fn package_scoped_with_equals_and_spaces() {
    let parsed = PackageIntervalParser::parse("foo = 1.2.3 <= 2.0.0").unwrap();
    let expect = PI::new(
        "foo",
        Interval::Open {
            start: VersionNumber::semver(1, 2, 3),
            end: VersionNumber::semver(2, 0, 0),
        },
    );
    assert_eq!(parsed, expect);
}

#[test]
fn interval_text_round_trips() {
    for text in ["1.2.3", "1.2.3<2.0.0", "1.2.3<=2.0.0", "0<1", "7.7.7.7<=7.7.7.8"] {
        let iv = VerNumIntervalParser::parse(text).unwrap();
        assert_eq!(iv.to_range(), text);
        assert_eq!(VI::from_str(&iv.to_range()), Ok(iv));
    }
}

#[test]
fn malformed_intervals_are_rejected() {
    for text in ["", "'1.2.3", "1.2.3\"", "'1.2.3\"", "<2.0", "1.0<", "1.0<<2.0", "1.0=<2.0", "a<b", "1.0 2.0"] {
        match VerNumIntervalParser::parse(text) {
            Err(VersionitisError::ParseError(t, _)) => assert_eq!(t, text),
            other => panic!("{:?} accepted as {:?}", text, other),
        }
    }
    for text in ["foo '1.2.3'", ": 1.2.3", "1foo: 1.2.3", "foo bar: 1.2.3", "foo: '1.2.3"] {
        assert!(PackageIntervalParser::parse(text).is_err(), "{:?}", text);
    }
}

#[test]
fn quoted_interval_with_inner_spaces() {
    let a = VerNumIntervalParser::parse("  ' 1.2.3 < 2.0.0 '  ").unwrap();
    assert_eq!(a, VI::from_range(&HalfOpen("1.2.3", "2.0.0")).unwrap());
}

#[test]
fn package_interval_from_str_and_contains() {
    let pi = PI::from_str("foo-1.0<2.0").unwrap();
    assert_eq!(pi.package_name(), "foo");
    assert!(pi.contains(&Package::from_str("foo-1.5").unwrap()));
    assert!(!pi.contains(&Package::from_str("bar-1.5").unwrap()));
    assert!(!pi.contains(&Package::from_str("foo-2.0").unwrap()));
    assert!(PI::from_range(&HalfOpen("foo-1.0", "bar-2.0")).is_err());
}

#[test]
fn scoped_parse_gives_interval_over_packages() {
    let parsed = PackageIntervalParser::parse("foo = 1.2.3 <= 2.0.0").unwrap();
    let packages = parsed.to_packages();
    assert_eq!(
        packages,
        Interval::Open {
            start: Package::from_str("foo-1.2.3").unwrap(),
            end: Package::from_str("foo-2.0.0").unwrap(),
        }
    );
    assert_eq!(packages.element_key().name(), "foo");
    assert!(packages.contains(&Package::from_str("foo-1.5.0").unwrap()));
    assert!(!packages.contains(&Package::from_str("foo-2.0.1").unwrap()));
    let single = VerNumIntervalParser::parse("3.1").unwrap();
    assert_eq!(single.element_key(), &VersionNumber::new(vec![3, 1]));
    let half = VerNumIntervalParser::parse("1.0<2.0").unwrap();
    assert_eq!(half.element_key(), &VersionNumber::new(vec![1, 0]));
}

#[test]
fn package_interval_text_round_trips() {
    for text in ["foo-1.2.3", "foo-1.2.3<2.0.0", "bar_baz-0<=1.1"] {
        let pi = PI::from_str(text).unwrap();
        assert_eq!(pi.to_range(), text);
        assert_eq!(PI::from_str(&pi.to_range()), Ok(pi));
    }
}
