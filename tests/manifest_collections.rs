use versionitis::manifest::Manifest;
use versionitis::manifest_map::ManifestMap;
use versionitis::manifest_repo::ManifestRepo;

#[test]
fn manifest_map_can_add_manifests_into_map() {
    let mut mymap = ManifestMap::new();
    mymap.add(Manifest::new("foo-0.1.0"));
    mymap.add_str("foo-0.2.0");
    mymap.add_str("foo-0.2.1");

    assert_eq!(mymap.len(), 3);
    assert_eq!(mymap.get("foo-0.1.0"), Some(&Manifest::new("foo-0.1.0")));
    assert_eq!(mymap.get("foo-0.2.0"), Some(&Manifest::new("foo-0.2.0")));
    assert_eq!(mymap.get("foo-0.2.1"), Some(&Manifest::new("foo-0.2.1")));
    assert_eq!(mymap.get("foo-bar"), None);
}

#[test]
fn can_get_package_hashset() {
    let mut mymap = ManifestMap::new();
    mymap.add(Manifest::new("foo-0.1.0"));
    mymap.add_str("foo-0.2.0");
    mymap.add_str("foo-0.2.1");
    mymap.add_str("bar-0.2.0");
    mymap.add_str("bar-0.2.1");

    let packages = mymap.packages();
    let mut vpackages = packages.iter().map(|x| x.as_str()).collect::<Vec<&str>>();
    vpackages.sort();
    let val = vec!["bar", "foo"];
    assert_eq!(vpackages, val);
    assert_eq!(packages.len(), 2);
}

#[test]
fn can_get_ordered_packages() {
    let mut mymap = ManifestMap::new();
    mymap.add(Manifest::new("foo-0.1.0"));
    mymap.add_str("foo-0.2.0");
    mymap.add_str("foo-0.2.1");
    mymap.add_str("bar-0.2.0");
    mymap.add_str("bar-0.2.1");

    let packages = mymap.packages_sorted();

    let val = vec!["bar", "foo"];
    assert_eq!(packages, val);
}

#[test]
fn manifest_map_can_add_multiple_times() {
    let mut mymap = ManifestMap::new();
    mymap.add(Manifest::new("foo-0.1.0"));
    mymap.add_str("foo-0.2.0");
    mymap.add_str("foo-0.2.1");
    let idx = mymap.get("foo-0.2.1").map(|m| m.package().to_string());
    mymap.add_str("foo-0.2.1");
    let idx_after = mymap.get("foo-0.2.1").map(|m| m.package().to_string());
    assert_eq!(mymap.len(), 3);
    assert_eq!(idx, idx_after);
}

#[test]
fn manifest_repo_can_add_manifests_into_map() {
    let mut repo = ManifestRepo::new();
    repo.add(Manifest::new("foo-0.1.0"));
    repo.add_str("foo-0.2.0");
    repo.add_str("foo-0.2.1");

    assert_eq!(repo.len(), 3);
    assert_eq!(repo.get("foo-0.1.0"), Some(&Manifest::new("foo-0.1.0")));
    assert_eq!(repo.get("foo-0.2.0"), Some(&Manifest::new("foo-0.2.0")));
    assert_eq!(repo.get("foo-0.2.1"), Some(&Manifest::new("foo-0.2.1")));
    assert_eq!(repo.get("foo-bar"), None);
}

#[test]
fn can_get_package_hashset_without_versions() {
    let mut repo = ManifestRepo::new();
    repo.add(Manifest::new("foo-0.1.0"));
    repo.add_str("foo-0.2.0");
    repo.add_str("foo-0.2.1");
    repo.add_str("bar-0.2.0");
    repo.add_str("bar-0.2.1");

    let packages = repo.packages(false);
    let mut vpackages = packages.iter().map(|x| x.as_str()).collect::<Vec<&str>>();
    vpackages.sort();
    let val = vec!["bar", "foo"];
    assert_eq!(vpackages, val);
    assert_eq!(packages.len(), 2);
}

#[test]
fn can_get_ordered_packages_without_versions() {
    let mut repo = ManifestRepo::new();
    repo.add(Manifest::new("foo-0.1.0"));
    repo.add_str("foo-0.2.0");
    repo.add_str("foo-0.2.1");
    repo.add_str("bar-0.2.0");
    repo.add_str("bar-0.2.1");

    let packages = repo.packages_sorted(false);

    let val = vec!["bar", "foo"];
    assert_eq!(packages, val);
}

#[test]
fn manifest_repo_can_add_multiple_times() {
    let mut repo = ManifestRepo::new();
    repo.add(Manifest::new("foo-0.1.0"));
    repo.add_str("foo-0.2.0");
    repo.add_str("foo-0.2.1");
    let idx = repo.get("foo-0.2.1").map(|m| m.package().to_string());
    repo.add_str("foo-0.2.1");
    let idx_after = repo.get("foo-0.2.1").map(|m| m.package().to_string());
    assert_eq!(repo.len(), 3);
    assert_eq!(idx, idx_after);
}

#[test]
fn versioned_packages_are_the_manifest_names_sorted() {
    let mut repo = ManifestRepo::new();
    for name in ["foo-1.0.0", "bar-0.1.0", "foo-0.1.0", "abc"] {
        repo.add_str(name);
    }
    assert_eq!(repo.packages_sorted(true), vec!["abc", "bar-0.1.0", "foo-0.1.0", "foo-1.0.0"]);
    assert_eq!(repo.packages_sorted(false), vec!["abc", "bar", "foo"]);
    assert!(repo.has("abc"));
    assert!(!repo.has("foo"));
    let mut keys = repo.keys();
    keys.sort();
    assert_eq!(keys, vec!["abc", "bar-0.1.0", "foo-0.1.0", "foo-1.0.0"]);
}
