//! Tests of the password generator.

use rcli::password::generate_password;
use rcli::password::PasswordError;

#[test]
fn test_generate_password_by_length() {
    let length = 16;
    let output = generate_password(length, true, true, true, true).unwrap();
    assert_eq!(output.len(), 16);
}

#[test]
fn test_generate_password_without_special() {
    let length = 16;
    let output = generate_password(length, true, true, false, true).unwrap();
    assert!(output
        .chars()
        .any(|c| "abcdefghijklmnopqrstuvwxyzABCDEFGHIJKLMNOPQRSTUVWXYZ".contains(c)));
    assert!(output.chars().any(|c| "0123456789".contains(c)));
    assert!(!output
        .chars()
        .any(|c| "!@#$%^&*()_+-=[]{}|;:,.<>?".contains(c)));
}

#[test]
fn test_generate_password_without_numbers() {
    let length = 16;
    let output = generate_password(length, true, true, true, false).unwrap();
    assert!(output
        .chars()
        .any(|c| "abcdefghijklmnopqrstuvwxyzABCDEFGHIJKLMNOPQRSTUVWXYZ".contains(c)));
    assert!(output
        .chars()
        .any(|c| "!@#$%^&*()_+-=[]{}|;:,.<>?".contains(c)));
    assert!(!output.chars().any(|c| "0123456789".contains(c)));
}

#[test]
fn every_enabled_class_is_represented() {
    let output = generate_password(4, true, true, true, true).unwrap();
    assert_eq!(output.len(), 4);
    assert!(output.chars().any(|c| c.is_ascii_lowercase()));
    assert!(output.chars().any(|c| c.is_ascii_uppercase()));
    assert!(output.chars().any(|c| c.is_ascii_digit()));
    assert!(output.chars().any(|c| "!@#$%^&*()_+-=[]{}|;:,.<>?".contains(c)));
}

#[test]
fn too_short_for_enabled_classes() {
    assert_eq!(
        generate_password(3, true, true, true, true).unwrap_err(),
        PasswordError::TooShort
    );
}

#[test]
fn no_classes_enabled() {
    assert_eq!(
        generate_password(8, false, false, false, false).unwrap_err(),
        PasswordError::NoClasses
    );
    assert_eq!(
        generate_password(0, false, false, false, false).unwrap(),
        ""
    );
}
