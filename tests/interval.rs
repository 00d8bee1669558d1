use versionitis::interval::Interval;
use versionitis::package::Package;
use versionitis::version_number::VersionNumber;

#[test]
fn interval_single_contains_true() {
    {
        let ident = Interval::Single(Package::from_str("foo-0.1.0").unwrap());
        let test = Package::from_str("foo-0.1.0").unwrap();
        assert!(ident.contains(&test));
    }
    {
        let ident = Interval::Single(VersionNumber::from_string("0.1.0").unwrap());
        let test = VersionNumber::from_string("0.1.0").unwrap();
        assert!(ident.contains(&test));
    }
}

#[test]
fn interval_single_contains_false() {
    {
        let ident = Interval::Single(Package::from_str("foo-0.2.0").unwrap());
        let test = Package::from_str("foo-0.1.0").unwrap();
        assert!(!ident.contains(&test));
    }
    {
        let ident = Interval::Single(VersionNumber::from_string("0.2.0").unwrap());
        let test = VersionNumber::from_string("0.1.0").unwrap();
        assert!(!ident.contains(&test));
    }
}

#[test]
fn interval_half_open_contains_true() {
    {
        let ident = Interval::HalfOpen {
            start: Package::from_str("foo-0.1.0").unwrap(),
            end: Package::from_str("foo-1.0.0").unwrap(),
        };
        let test = Package::from_str("foo-0.1.1").unwrap();
        assert!(ident.contains(&test));
    }
    {
        let ident = Interval::HalfOpen {
            start: VersionNumber::from_string("0.1.0").unwrap(),
            end: VersionNumber::from_string("1.0.0").unwrap(),
        };
        let test = VersionNumber::from_string("0.1.1").unwrap();
        assert!(ident.contains(&test));
    }
}

#[test]
fn interval_half_open_contains_to_small() {
    {
        let ident = Interval::HalfOpen {
            start: Package::from_str("foo-0.1.1").unwrap(),
            end: Package::from_str("foo-1.0.0").unwrap(),
        };
        let test = Package::from_str("foo-0.1.0").unwrap();
        assert!(!ident.contains(&test));
    }
    {
        let ident = Interval::HalfOpen {
            start: VersionNumber::from_string("0.1.1").unwrap(),
            end: VersionNumber::from_string("1.0.0").unwrap(),
        };
        let test = VersionNumber::from_string("0.1.0").unwrap();
        assert!(!ident.contains(&test));
    }
}

#[test]
fn interval_half_open_contains_to_big() {
    {
        let ident = Interval::HalfOpen {
            start: Package::from_str("foo-0.1.1").unwrap(),
            end: Package::from_str("foo-1.0.0").unwrap(),
        };
        let test = Package::from_str("foo-1.0.1").unwrap();
        assert!(!ident.contains(&test));
    }
    {
        let ident = Interval::HalfOpen {
            start: VersionNumber::from_string("0.1.1").unwrap(),
            end: VersionNumber::from_string("1.0.0").unwrap(),
        };
        let test = VersionNumber::from_string("1.0.1").unwrap();
        assert!(!ident.contains(&test));
    }
}

#[test]
fn interval_half_open_contains_end_false() {
    {
        let ident = Interval::HalfOpen {
            start: Package::from_str("foo-0.1.1").unwrap(),
            end: Package::from_str("foo-1.0.0").unwrap(),
        };
        let test = Package::from_str("foo-1.0.0").unwrap();
        assert!(!ident.contains(&test));
    }
    {
        let ident = Interval::HalfOpen {
            start: VersionNumber::from_string("0.1.1").unwrap(),
            end: VersionNumber::from_string("1.0.0").unwrap(),
        };
        let test = VersionNumber::from_string("1.0.0").unwrap();
        assert!(!ident.contains(&test));
    }
}

#[test]
fn interval_open_contains_true() {
    {
        let ident = Interval::Open {
            start: Package::from_str("foo-0.1.1").unwrap(),
            end: Package::from_str("foo-1.0.0").unwrap(),
        };
        let test = Package::from_str("foo-0.5.0").unwrap();
        assert!(ident.contains(&test));
    }
    {
        let ident = Interval::Open {
            start: VersionNumber::from_string("0.1.1").unwrap(),
            end: VersionNumber::from_string("1.0.0").unwrap(),
        };
        let test = VersionNumber::from_string("0.5.0").unwrap();
        assert!(ident.contains(&test));
    }
}

#[test]
fn interval_open_contains_too_small() {
    {
        let ident = Interval::Open {
            start: Package::from_str("foo-0.1.1").unwrap(),
            end: Package::from_str("foo-1.0.0").unwrap(),
        };
        let test = Package::from_str("foo-0.1.0").unwrap();
        assert!(!ident.contains(&test));
    }
    {
        let ident = Interval::Open {
            start: VersionNumber::from_string("0.1.1").unwrap(),
            end: VersionNumber::from_string("1.0.0").unwrap(),
        };
        let test = VersionNumber::from_string("0.1.0").unwrap();
        assert!(!ident.contains(&test));
    }
}

#[test]
fn interval_open_contains_too_big() {
    {
        let ident = Interval::Open {
            start: Package::from_str("foo-0.1.1").unwrap(),
            end: Package::from_str("foo-1.0.0").unwrap(),
        };
        let test = Package::from_str("foo-1.0.1").unwrap();
        assert!(!ident.contains(&test));
    }
    {
        let ident = Interval::Open {
            start: VersionNumber::from_string("0.1.1").unwrap(),
            end: VersionNumber::from_string("1.0.0").unwrap(),
        };
        let test = VersionNumber::from_string("1.0.1").unwrap();
        assert!(!ident.contains(&test));
    }
}

#[test]
fn interval_open_contains_end_true() {
    {
        let ident = Interval::Open {
            start: Package::from_str("foo-0.1.1").unwrap(),
            end: Package::from_str("foo-1.0.0").unwrap(),
        };
        let test = Package::from_str("foo-1.0.0").unwrap();
        assert!(ident.contains(&test));
    }
    {
        let ident = Interval::Open {
            start: VersionNumber::from_string("0.1.1").unwrap(),
            end: VersionNumber::from_string("1.0.0").unwrap(),
        };
        let test = VersionNumber::from_string("1.0.0").unwrap();
        assert!(ident.contains(&test));
    }
}

#[test]
fn interval_range_filter_half_open_test() {
    {
        let range = vec![
            Package::from_str("foo-0.1.1").unwrap(),
            Package::from_str("foo-0.1.2").unwrap(),
            Package::from_str("foo-0.1.3").unwrap(),
            Package::from_str("foo-0.2.0").unwrap(),
            Package::from_str("foo-0.3.0").unwrap(),
            Package::from_str("foo-0.3.1").unwrap(),
            Package::from_str("foo-0.3.2").unwrap(),
            Package::from_str("foo-0.3.3").unwrap(),
            Package::from_str("foo-0.3.4").unwrap(),
            Package::from_str("foo-0.4.0").unwrap(),
            Package::from_str("foo-0.4.1").unwrap(),
            Package::from_str("foo-0.4.2").unwrap(),
            Package::from_str("foo-0.4.3").unwrap(),
            Package::from_str("foo-0.5.0").unwrap(),
            Package::from_str("foo-0.5.1").unwrap(),
            Package::from_str("foo-0.5.2").unwrap(),
            Package::from_str("foo-0.5.3").unwrap(),
        ];

        let expected = &range[6..11].iter().map(|x| x).collect::<Vec<&Package>>();

        let interval = Interval::HalfOpen {
            start: Package::from_str("foo-0.3.2").unwrap(),
            end: Package::from_str("foo-0.4.2").unwrap(),
        };

        let result = range
            .iter()
            .filter(|x| interval.contains(x))
            .collect::<Vec<&Package>>();

        assert_eq!(result.len(), 5);
        assert_eq!(result, *expected);

        let expected = Package::from_str("foo-0.4.1").unwrap();
        assert_eq!(result[result.len() - 1], &expected);
    }
    {
        let range = vec![
            VersionNumber::from_string("0.1.1").unwrap(),
            VersionNumber::from_string("0.1.2").unwrap(),
            VersionNumber::from_string("0.1.3").unwrap(),
            VersionNumber::from_string("0.2.0").unwrap(),
            VersionNumber::from_string("0.3.0").unwrap(),
            VersionNumber::from_string("0.3.1").unwrap(),
            VersionNumber::from_string("0.3.2").unwrap(),
            VersionNumber::from_string("0.3.3").unwrap(),
            VersionNumber::from_string("0.3.4").unwrap(),
            VersionNumber::from_string("0.4.0").unwrap(),
            VersionNumber::from_string("0.4.1").unwrap(),
            VersionNumber::from_string("0.4.2").unwrap(),
            VersionNumber::from_string("0.4.3").unwrap(),
            VersionNumber::from_string("0.5.0").unwrap(),
            VersionNumber::from_string("0.5.1").unwrap(),
            VersionNumber::from_string("0.5.2").unwrap(),
            VersionNumber::from_string("0.5.3").unwrap(),
        ];

        let expected = &range[6..11].iter().map(|x| x).collect::<Vec<&VersionNumber>>();

        let interval = Interval::HalfOpen {
            start: VersionNumber::from_string("0.3.2").unwrap(),
            end: VersionNumber::from_string("0.4.2").unwrap(),
        };

        let result = range
            .iter()
            .filter(|x| interval.contains(x))
            .collect::<Vec<&VersionNumber>>();

        assert_eq!(result.len(), 5);
        assert_eq!(result, *expected);

        let expected = VersionNumber::from_string("0.4.1").unwrap();
        assert_eq!(result[result.len() - 1], &expected);
    }
}

#[test]
fn single_holds_only_its_value() {
    let v = VersionNumber::from_string("1.2.3").unwrap();
    let single = Interval::Single(v.clone());
    assert!(single.contains(&v));
    assert!(!single.contains(&VersionNumber::from_string("1.2.3.0").unwrap()));
    assert!(!single.contains(&VersionNumber::from_string("1.2").unwrap()));
}

#[test]
fn upper_bound_excluded_or_included() {
    let start = VersionNumber::from_string("1.0").unwrap();
    let end = VersionNumber::from_string("2.0").unwrap();
    let half = Interval::HalfOpen { start: start.clone(), end: end.clone() };
    let open = Interval::Open { start: start.clone(), end: end.clone() };
    assert!(!half.contains(&end));
    assert!(open.contains(&end));
    assert!(half.contains(&start));
    assert!(open.contains(&start));
}

#[test]
fn package_interval_of_other_name_holds_nothing() {
    let iv = Interval::Open {
        start: Package::from_str("foo-1.0").unwrap(),
        end: Package::from_str("foo-2.0").unwrap(),
    };
    assert!(!iv.contains(&Package::from_str("bar-1.5").unwrap()));
    assert!(iv.contains(&Package::from_str("foo-1.5").unwrap()));
}
