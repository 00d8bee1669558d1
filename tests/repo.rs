use versionitis::errors::VersionitisError;
use versionitis::package::Package;
use versionitis::package_map::PackageMap;
use versionitis::repo::Repo;

fn setup_repo(package_name: &str) -> Repo {
    let mut repo = Repo::new();

    repo.add_version(package_name, "0.1.0").unwrap();
    repo.add_version(package_name, "0.2.0").unwrap();
    repo.add_version(package_name, "0.2.1").unwrap();
    repo.add_version(package_name, "0.2.3").unwrap();
    repo.add_version(package_name, "0.3.0").unwrap();

    repo
}

#[test]
fn new() {
    let mut repo = Repo::new();
    let package_version = Package::from_strs("foo", "0.1.0");

    repo.add_version("foo", "0.1.0").unwrap();
    let package = repo.get("foo");
    assert_eq!(package.unwrap()[0], package_version.unwrap());
}

#[test]
fn can_get_a_package() {
    let package_version = Package::from_strs("foo", "0.1.0");
    let repo = setup_repo("foo");
    let package = repo.get("foo");
    assert_eq!(package.unwrap()[0], package_version.unwrap());
}

#[test]
fn setup_nocheck_allows_dups_and_unordered_inserts() {
    let mut repo = Repo::new();
    let package_name = "fred";
    repo.add_version_unchecked(package_name, "0.2.0").unwrap();
    repo.add_version_unchecked(package_name, "0.1.0").unwrap();
    repo.add_version_unchecked(package_name, "0.1.0").unwrap();
    repo.add_version_unchecked(package_name, "0.2.1").unwrap();
    repo.add_version_unchecked(package_name, "0.3.0").unwrap();
    repo.add_version_unchecked(package_name, "0.2.3").unwrap();
    assert_eq!(repo.get(package_name).unwrap().len(), 6);
}

#[test]
fn dedup_sort_cleans_up() {
    let mut repo = Repo::new();
    let package_name = "fred";
    repo.add_version_unchecked(package_name, "0.2.0").unwrap();
    repo.add_version_unchecked(package_name, "0.1.0").unwrap();
    repo.add_version_unchecked(package_name, "0.1.0").unwrap();
    repo.add_version_unchecked(package_name, "0.2.1").unwrap();
    repo.add_version_unchecked(package_name, "0.3.0").unwrap();
    repo.add_version_unchecked(package_name, "0.2.3").unwrap();
    repo.dedup_sort();

    let package = repo.get(package_name).unwrap();
    let versions = vec!["0.1.0", "0.2.0", "0.2.1", "0.2.3", "0.3.0"];
    package.iter().enumerate().for_each(|(idx, pack)| {
        assert_eq!(pack, &Package::from_strs(package_name, versions[idx]).unwrap());
    });
}

#[test]
fn same_version_twice_is_rejected() {
    let mut repo = Repo::new();
    repo.add_version("foo", "0.1.0").unwrap();
    assert_eq!(
        repo.add_version("foo", "0.1.0"),
        Err(VersionitisError::InvalidPackageVersion("foo-0.1.0".to_string()))
    );
    assert_eq!(
        repo.add_version("foo", "0.0.9"),
        Err(VersionitisError::InvalidPackageVersion("foo-0.0.9".to_string()))
    );
    assert_eq!(repo.get("foo").unwrap().len(), 1);
    assert!(repo.is_clean());
}

#[test]
fn dedup_sort_twice_changes_nothing() {
    let mut repo = Repo::new();
    for v in ["0.2.0", "0.1.0", "0.1.0", "0.3.0"] {
        repo.add_version_unchecked("foo", v).unwrap();
    }
    assert!(!repo.is_clean());
    repo.dedup_sort();
    assert!(repo.is_clean());
    let first: Vec<String> = repo.get("foo").unwrap().iter().map(|p| p.version()).collect();
    assert_eq!(first, vec!["0.1.0", "0.2.0", "0.3.0"]);
    repo.dedup_sort();
    let second: Vec<String> = repo.get("foo").unwrap().iter().map(|p| p.version()).collect();
    assert_eq!(first, second);
}

#[test]
fn first_unchecked_insert_marks_repo_unclean() {
    let mut repo = Repo::new();
    repo.add_version_unchecked("foo", "1.0").unwrap();
    assert!(!repo.is_clean());
}

#[test]
fn unknown_package_is_reported() {
    let repo = Repo::new();
    assert_eq!(repo.get("bar"), Err(VersionitisError::UnknownPackage("bar".to_string())));
}

#[test]
fn bad_version_text_leaves_repo_unchanged() {
    let mut repo = Repo::new();
    match repo.add_version("foo", "1.x") {
        Err(VersionitisError::ParseError(t, _)) => assert_eq!(t, "1.x"),
        other => panic!("accepted: {:?}", other),
    }
    assert!(repo.get("foo").is_err());
    assert!(repo.package_names().is_empty());
}

#[test]
fn package_map_testone() {
    let mut mymap = PackageMap::new();
    mymap.add(Package::from_string("foo-0.1.0").unwrap());
    mymap.add_str("foo-0.2.0");
    mymap.add_str("foo-0.2.1");

    assert_eq!(mymap.len(), 3);
    assert_eq!(mymap.get("foo-0.1.0"), Some(1));
    assert_eq!(mymap.get("foo-0.2.0"), Some(2));
    assert_eq!(mymap.get("foo-0.2.1"), Some(3));
    assert_eq!(mymap.get("foo-bar"), None);
}

#[test]
fn package_map_can_add_multiple_times() {
    let mut mymap = PackageMap::new();
    mymap.add(Package::from_string("foo-0.1.0").unwrap());
    mymap.add_str("foo-0.2.0");
    mymap.add_str("foo-0.2.1");
    let idx = mymap.get("foo-0.2.1");
    mymap.add_str("foo-0.2.1");
    let idx_after = mymap.get("foo-0.2.1");
    assert_eq!(mymap.len(), 3);
    assert_eq!(idx, idx_after);
}

#[test]
fn package_map_ids_lead_back_to_packages() {
    let mut mymap = PackageMap::new();
    mymap.add_str("foo-0.1.0");
    mymap.add_str("bar-1.0");
    assert!(mymap.has("bar-1.0"));
    assert!(!mymap.has("bar-1.0.0"));
    assert_eq!(mymap.at_lit(2), Some(&Package::from_str("bar-1.0").unwrap()));
    assert_eq!(mymap.at_lit(0), None);
    assert_eq!(mymap.at_lit(3), None);
    assert_eq!(mymap.at_lit(-1), None);
}
