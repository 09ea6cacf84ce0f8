use nextbom::commands::{check_schema_compatibility, major_version_of};
use nextbom::project_data::current_version;

fn current_major() -> u32 {
    current_version()
        .split('.')
        .next()
        .and_then(|v| v.parse().ok())
        .expect("package version must be valid semver")
}

#[test]
fn compatible_same_major_version() {
    let major = current_major();
    let schema = format!("{}.5.3", major);
    assert!(check_schema_compatibility(&schema).is_ok());
}

#[test]
fn compatible_exact_current_version() {
    assert!(check_schema_compatibility(current_version()).is_ok());
}

#[test]
fn incompatible_higher_major_version() {
    let major = current_major() + 1;
    let schema = format!("{}.0.0", major);
    let result = check_schema_compatibility(&schema);
    assert!(result.is_err());
    let msg = result.unwrap_err();
    assert!(msg.contains("Incompatible"));
}

#[test]
fn incompatible_lower_major_version_when_current_is_nonzero() {
    let major = current_major();
    if major == 0 {
        return;
    }
    let schema = format!("{}.99.0", major - 1);
    assert!(check_schema_compatibility(&schema).is_err());
}

#[test]
fn invalid_schema_format_returns_error() {
    let result = check_schema_compatibility("not-a-version");
    assert!(result.is_err());
    assert!(result.unwrap_err().contains("Invalid schema version format"));
}

#[test]
fn empty_schema_string_returns_error() {
    let result = check_schema_compatibility("");
    assert!(result.is_err());
}

#[test]
fn incompatible_message_is_exact() {
    let result = check_schema_compatibility("1.2.3");
    assert_eq!(
        result.unwrap_err(),
        "Incompatible project file version: 1.2.3 (current software version: 0.1.0). Please update the application or use a compatible project file."
    );
}

#[test]
fn invalid_message_names_the_schema() {
    assert_eq!(
        check_schema_compatibility("x.1").unwrap_err(),
        "Invalid schema version format: x.1"
    );
}

#[test]
fn plus_sign_and_leading_zeros_are_accepted() {
    assert!(check_schema_compatibility("+0.9").is_ok());
    assert!(check_schema_compatibility("000.1").is_ok());
    assert!(check_schema_compatibility("0").is_ok());
}

#[test]
fn overflowing_major_is_invalid() {
    let r = check_schema_compatibility("4294967296.0.0");
    assert!(r.unwrap_err().contains("Invalid schema version format"));
    assert!(check_schema_compatibility("4294967295.0.0").unwrap_err().contains("Incompatible"));
}

#[test]
fn major_version_reads_first_component() {
    assert_eq!(major_version_of("12.3.4"), Some(12));
    assert_eq!(major_version_of("12"), Some(12));
    assert_eq!(major_version_of(".1"), None);
    assert_eq!(major_version_of("-1.0"), None);
    assert_eq!(major_version_of("+"), None);
}
