//! Backups.

use aureus::backup::{
    backup_file_name, build_backup_bundle, check_envelope, import_needs_confirmation,
    parse_backup_bundle,
};

#[test]
fn a_backup_restores_the_portfolio() {
    let portfolio = r#"{"accounts": [{"id": 1, "name": "TFSA \"A\"\n"}], "note": null}"#;
    let bytes = build_backup_bundle(portfolio, "2024-03-01").unwrap();
    let restored = parse_backup_bundle(&bytes).unwrap();
    assert_eq!(restored, r#"{"accounts":[{"id":1,"name":"TFSA \"A\"\n"}],"note":null}"#);
    let again = build_backup_bundle(&restored, "2024-03-01").unwrap();
    assert_eq!(again, bytes);
}

#[test]
fn a_backup_keeps_amounts() {
    let portfolio = r#"{"cash":12.5,"list":[0.1,-2.75,1e21,4.0],"none":[]}"#;
    let bytes = build_backup_bundle(portfolio, "2024-03-01").unwrap();
    let restored = parse_backup_bundle(&bytes).unwrap();
    assert_eq!(restored, r#"{"cash":12.5,"list":[0.1,-2.75,1e+21,4.0],"none":[]}"#);
    assert_eq!(build_backup_bundle(&restored, "2024-03-01").unwrap(), bytes);
    assert_eq!(parse_backup_bundle(&bytes).unwrap(), restored);
}

#[test]
fn a_backup_is_read_up_to_a_depth() {
    let nested = |depth: usize| format!("{}{}", "[".repeat(depth), "]".repeat(depth));
    let bytes = build_backup_bundle(&nested(126), "2024-03-01").unwrap();
    assert_eq!(parse_backup_bundle(&bytes).unwrap(), nested(126));
    let bytes = build_backup_bundle(&nested(127), "2024-03-01").unwrap();
    let refused = parse_backup_bundle(&bytes).unwrap_err();
    assert!(refused.starts_with("This is not a valid Aureus backup: recursion limit exceeded"));
    assert!(build_backup_bundle(&nested(128), "2024-03-01").is_err());
}

#[test]
fn the_document_of_a_backup_is_written_out() {
    let bytes = build_backup_bundle("[]", "2024-03-01").unwrap();
    let text = String::from_utf8(bytes).unwrap();
    assert_eq!(
        text,
        "{\n  \"bundle_version\": 2,\n  \"created_on\": \"2024-03-01\",\n  \
         \"format\": \"Aureus Backup\",\n  \"portfolio\": []\n}"
    );
}

#[test]
fn a_portfolio_that_is_no_document_is_refused() {
    let error = build_backup_bundle("{", "2024-03-01").unwrap_err();
    assert!(error.starts_with("Could not prepare portfolio backup: EOF"));
}

#[test]
fn other_parts_of_a_backup_are_left_out() {
    let with_pictures = r#"{"format":"Aureus Backup","bundle_version":1,"portfolio":{"a":[1,-2]},
        "images":["x"],"created_on":7}"#;
    assert_eq!(parse_backup_bundle(with_pictures.as_bytes()).unwrap(), r#"{"a":[1,-2]}"#);
}

#[test]
fn foreign_files_are_refused() {
    let refused = |contents: &str| parse_backup_bundle(contents.as_bytes()).unwrap_err();
    assert!(refused("nonsense").starts_with("This is not a valid Aureus backup: "));
    assert_eq!(refused("[]"), "This is not a current Aureus backup");
    assert_eq!(
        refused(r#"{"format":"Other","bundle_version":2,"portfolio":1}"#),
        "This is not a current Aureus backup"
    );
    assert_eq!(
        refused(r#"{"format":"Aureus Backup","bundle_version":"2","portfolio":1}"#),
        "This is not a current Aureus backup"
    );
    assert_eq!(
        refused(r#"{"format":"Aureus Backup","bundle_version":-2,"portfolio":1}"#),
        "This is not a current Aureus backup"
    );
    assert_eq!(
        refused(r#"{"format":"Aureus Backup","bundle_version":3,"portfolio":1}"#),
        "This is not a supported Aureus backup"
    );
    assert_eq!(
        refused(r#"{"format":"Aureus Backup","bundle_version":2}"#),
        "The backup is missing portfolio data"
    );
}

#[test]
fn envelopes_are_checked() {
    assert!(check_envelope(Some("Aureus Backup"), Some(1), true).is_ok());
    assert_eq!(
        check_envelope(None, Some(1), true),
        Err("This is not a current Aureus backup")
    );
    assert_eq!(
        check_envelope(Some("Aureus Backup"), None, true),
        Err("This is not a current Aureus backup")
    );
    assert_eq!(
        check_envelope(Some("Aureus Backup"), Some(0), true),
        Err("This is not a supported Aureus backup")
    );
    assert_eq!(
        check_envelope(Some("Aureus Backup"), Some(2), false),
        Err("The backup is missing portfolio data")
    );
}

#[test]
fn backups_are_named_by_date() {
    assert_eq!(backup_file_name("2024-03-01"), "backup-2024-03-01.aureus");
    assert!(!import_needs_confirmation(0, 0, 0));
    assert!(import_needs_confirmation(0, 0, 1));
}
