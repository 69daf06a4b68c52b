//! Version parsing, compatibility, ordering and package selection, plus
//! the name-normalization and type-specification string functions.

use al_call_hierarchy::parser::{extract_quoted_name, parse_type_specification};
use al_call_hierarchy::resolver::{names_match, normalize_object_name};
use al_call_hierarchy::strutil::clean_name;
use al_call_hierarchy::versions::{
    compare_versions, is_version_compatible, parse_version, select_best_app,
};
use std::cmp::Ordering;

#[test]
fn test_parse_version() {
    assert_eq!(parse_version("26.0.0.0"), vec![26, 0, 0, 0]);
    assert_eq!(parse_version("26.0.30643.32100"), vec![26, 0, 30643, 32100]);
    assert_eq!(parse_version("1.2.3"), vec![1, 2, 3]);
}

#[test]
fn test_is_version_compatible() {
    // Same major.minor
    assert!(is_version_compatible("26.0.0.0", "26.0.0.0"));
    assert!(is_version_compatible("26.0.0.0", "26.0.30643.32100"));

    // Higher minor
    assert!(is_version_compatible("26.0.0.0", "26.1.0.0"));

    // Lower minor - not compatible
    assert!(!is_version_compatible("26.1.0.0", "26.0.0.0"));

    // Higher major
    assert!(is_version_compatible("26.0.0.0", "27.0.0.0"));

    // Lower major - not compatible
    assert!(!is_version_compatible("27.0.0.0", "26.0.0.0"));
}

#[test]
fn test_compare_versions() {
    // Higher version should come first (Less means a > b)
    assert_eq!(
        compare_versions("26.0.30643.32100", "26.0.30643.31340"),
        Ordering::Less
    );
    assert_eq!(compare_versions("26.0.0.0", "25.0.0.0"), Ordering::Less);
    assert_eq!(compare_versions("26.0.0.0", "26.0.0.0"), Ordering::Equal);
    assert_eq!(compare_versions("25.0.0.0", "26.0.0.0"), Ordering::Greater);
}

#[test]
fn test_parse_version_drops_non_numeric_parts() {
    assert_eq!(parse_version("26.x.3"), vec![26, 3]);
    assert_eq!(parse_version(""), Vec::<u64>::new());
    assert_eq!(parse_version("..7"), vec![7]);
}

#[test]
fn test_select_best_app_picks_highest_compatible() {
    let files = vec![
        "P_N_25.0.9.9.app".to_string(),
        "P_N_26.0.30643.31340.app".to_string(),
        "P_N_26.0.30643.32100.app".to_string(),
    ];
    let best = select_best_app(&files, "P", "N", "26.0.0.0");
    assert_eq!(best, Some(2));
}

#[test]
fn test_select_best_app_fails_when_nothing_compatible() {
    let files = vec![
        "P_N_25.0.9.9.app".to_string(),
        "P_N_26.0.30643.31340.app".to_string(),
        "P_N_26.0.30643.32100.app".to_string(),
    ];
    let best = select_best_app(&files, "P", "N", "27.0.0.0");
    assert_eq!(best, None);
}

#[test]
fn test_select_best_app_ignores_other_dependencies() {
    let files = vec![
        "Q_M_30.0.0.0.app".to_string(),
        "P_N_26.1.0.0.app".to_string(),
        "readme.txt".to_string(),
    ];
    let best = select_best_app(&files, "P", "N", "26.0.0.0");
    assert_eq!(best, Some(1));
}

#[test]
fn test_normalize_object_name() {
    assert_eq!(normalize_object_name("Customer Mgt."), "customermgt.");
    assert_eq!(normalize_object_name("\"Sales-Post\""), "salespost");
}

#[test]
fn test_names_match() {
    assert!(names_match("Customer Mgt.", "CustomerMgt."));
    assert!(names_match("\"Sales-Post\"", "salespost"));
}

#[test]
fn test_names_match_rejects_different_names() {
    assert!(!names_match("Customer Mgt.", "Vendor Mgt."));
}

#[test]
fn test_type_specification_parsing() {
    // Test the parse_type_specification function
    let (kind, name) = parse_type_specification("Record \"Customer\"");
    assert_eq!(kind.as_deref(), Some("Record"));
    assert_eq!(name, "Customer");

    let (kind, name) = parse_type_specification("Codeunit \"Sales-Post\"");
    assert_eq!(kind.as_deref(), Some("Codeunit"));
    assert_eq!(name, "Sales-Post");

    let (kind, name) = parse_type_specification("Integer");
    assert!(kind.is_none());
    assert_eq!(name, "Integer");
}

#[test]
fn test_type_specification_unquoted_name() {
    let (kind, name) = parse_type_specification("Record Customer");
    assert_eq!(kind.as_deref(), Some("Record"));
    assert_eq!(name, "Customer");
}

#[test]
fn test_extract_quoted_name() {
    assert_eq!(extract_quoted_name("\"Customer\""), Some("Customer".to_string()));
    assert_eq!(extract_quoted_name("  Customer  "), Some("Customer".to_string()));
    assert_eq!(extract_quoted_name("   "), None);
}

#[test]
fn test_clean_name() {
    assert_eq!(clean_name("  \"Sales Header\"  "), "Sales Header");
    assert_eq!(clean_name("'OnRun'"), "OnRun");
    assert_eq!(clean_name("Plain"), "Plain");
}
