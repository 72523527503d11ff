use cargo_bundle::path::{resource_relpath, resource_relpath_segments};
use cargo_bundle::settings::PackageType;
use cargo_bundle::text::{decimal_string, join_strings, sort_strings, str_eq, str_le, zero_padded_decimal};

#[test]
fn resource_relative_paths() {
    assert_eq!(resource_relpath("./data/images/button.png"), "data/images/button.png");
    assert_eq!(resource_relpath("../../images/wheel.png"), "_up_/_up_/images/wheel.png");
    assert_eq!(resource_relpath("/home/ferris/crab.png"), "_root_/home/ferris/crab.png");
}

#[test]
fn relpath_drops_empty_and_current_segments() {
    assert_eq!(resource_relpath("a//b/./c/"), "a/b/c");
    assert_eq!(resource_relpath(""), "");
    assert_eq!(resource_relpath("/"), "_root_");
    assert_eq!(resource_relpath(".hidden/..x"), ".hidden/..x");
    assert_eq!(
        resource_relpath_segments("x/../y.txt"),
        vec!["x".to_string(), "_up_".to_string(), "y.txt".to_string()]
    );
}

#[test]
fn decimal_rendering() {
    assert_eq!(decimal_string(0), "0");
    assert_eq!(decimal_string(1033), "1033");
    assert_eq!(decimal_string(u64::MAX), "18446744073709551615");
    assert_eq!(zero_padded_decimal(7, 4), "0007");
    assert_eq!(zero_padded_decimal(12345, 4), "12345");
}

#[test]
fn joining_and_comparing() {
    let items = vec!["a".to_string(), "b".to_string(), "c".to_string()];
    assert_eq!(join_strings(&items, "/"), "a/b/c");
    assert_eq!(join_strings(&Vec::new(), "/"), "");
    assert!(str_eq("msi", "msi"));
    assert!(!str_eq("msi", "ms"));
    assert!(!str_eq("msi", "msx"));
}

#[test]
fn package_type_names() {
    for name in PackageType::all() {
        let t = PackageType::from_short_name(name).unwrap();
        assert_eq!(t.short_name(), name);
    }
    assert_eq!(PackageType::from_short_name("msi"), Some(PackageType::WindowsMsi));
    assert_eq!(PackageType::from_short_name("appimage"), Some(PackageType::AppImage));
    assert_eq!(PackageType::from_short_name("exe"), None);
    assert_eq!(PackageType::all(), vec!["deb", "ios", "msi", "osx", "rpm", "appimage"]);
}

#[test]
fn strings_sort_by_character() {
    let items: Vec<String> = ["b", "B", "a", "ab", "", "a"].iter().map(|s| s.to_string()).collect();
    let mut expected = items.clone();
    expected.sort();
    assert_eq!(sort_strings(&items), expected);
    assert!(str_le("ab", "b"));
    assert!(str_le("a", "ab"));
    assert!(!str_le("ab", "a"));
    assert!(str_le("é", "ê"));
    assert!(str_le("", ""));
}
