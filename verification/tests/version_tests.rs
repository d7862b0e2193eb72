use gini_core::ordering::{greedy_order, index_matrix};
use gini_core::dependency::PluginDependency;
use gini_core::semver_model::VersionRange;
use gini_core::text::{split_chars, str_chars, u64_to_decimal};
use gini_core::version::{ApiVersion, VersionError};

#[test]
fn api_version_parse_and_print() {
    let v = ApiVersion::from_str("1.2.3").unwrap();
    assert_eq!(v, ApiVersion::new(1, 2, 3));
    assert_eq!(v.to_string(), "1.2.3");
    assert!(matches!(ApiVersion::from_str("1.2"), Err(VersionError::InvalidFormat)));
    assert!(matches!(ApiVersion::from_str("1.2.3.4"), Err(VersionError::InvalidFormat)));
    match ApiVersion::from_str("1.x.3") {
        Err(e @ VersionError::ParseError(_)) => {
            assert_eq!(e.message(), "Version parse error: invalid digit found in string")
        },
        other => panic!("unexpected {:?}", other),
    }
    assert_eq!(VersionError::InvalidFormat.message(), "Invalid version format");
}

#[test]
fn api_version_compatibility_same_major() {
    let v = ApiVersion::new(1, 2, 3);
    assert!(v.is_compatible_with(&ApiVersion::new(1, 0, 0)));
    assert!(!v.is_compatible_with(&ApiVersion::new(2, 2, 3)));
    assert!(ApiVersion::new(1, 2, 3) < ApiVersion::new(1, 3, 0));
}

#[test]
fn semantic_versions_read_through_ranges() {
    let dep = PluginDependency::required("p", VersionRange::from_str(">=1.2.3-beta.1").unwrap());
    assert!(dep.is_compatible_with("1.2.3-beta.2+build"));
    assert!(!dep.is_compatible_with("1.2.3-alpha"));
    assert!(dep.is_compatible_with("1.2.3"));
    assert!(!dep.is_compatible_with("1.2"));
}

#[test]
fn decimal_and_split() {
    assert_eq!(u64_to_decimal(0), "0");
    assert_eq!(u64_to_decimal(18446744073709551615), "18446744073709551615");
    let parts = split_chars(&str_chars("a:b::c"), ':');
    let texts: Vec<String> = parts.iter().map(|p| p.iter().collect()).collect();
    assert_eq!(texts, vec!["a", "b", "", "c"]);
}

#[test]
fn greedy_order_follows_constraints() {
    // item 0 must follow item 2
    let prec = vec![vec![false, false, true], vec![false, false, false], vec![false, false, false]];
    let first = index_matrix(3);
    assert_eq!(greedy_order(&prec, &first), Ok(vec![1, 2, 0]));
    let cyclic = vec![vec![false, true], vec![true, false]];
    assert_eq!(greedy_order(&cyclic, &index_matrix(2)), Err(vec![0, 1]));
}
