use dispatch::trust::{is_repo_trusted, project_key, trust_repo, TrustError};

const HOME: &str = "/home/me";

fn flag(settings: &str, repo: &str) -> Option<bool> {
    let value: serde_json::Value = serde_json::from_str(settings).unwrap();
    value["projects"][repo]["hasTrustDialogAccepted"].as_bool()
}

#[test]
fn absent_file_is_not_trusted() {
    assert!(!is_repo_trusted(None, "/repo", HOME).unwrap());
}

#[test]
fn trusted_repo_is_detected() {
    let content = r#"{"projects": {"/repo": {"hasTrustDialogAccepted": true}}}"#;
    assert!(is_repo_trusted(Some(content), "/repo", HOME).unwrap());
}

#[test]
fn explicit_false_is_not_trusted() {
    let content = r#"{"projects": {"/repo": {"hasTrustDialogAccepted": false}}}"#;
    assert!(!is_repo_trusted(Some(content), "/repo", HOME).unwrap());
}

#[test]
fn missing_project_entry_is_not_trusted() {
    let content = r#"{"projects": {}}"#;
    assert!(!is_repo_trusted(Some(content), "/repo", HOME).unwrap());
}

#[test]
fn malformed_json_returns_err() {
    assert!(is_repo_trusted(Some("not json"), "/repo", HOME).is_err());
}

#[test]
fn trust_repo_creates_file_when_absent() {
    let content = trust_repo(None, "/repo", HOME).unwrap();
    assert_eq!(flag(&content, "/repo"), Some(true));
}

#[test]
fn trust_repo_sets_flag_on_existing_entry() {
    let content = r#"{"projects": {"/repo": {"someOtherKey": "preserved"}}}"#;
    let updated = trust_repo(Some(content), "/repo", HOME).unwrap();
    assert_eq!(flag(&updated, "/repo"), Some(true));
    let value: serde_json::Value = serde_json::from_str(&updated).unwrap();
    assert_eq!(value["projects"]["/repo"]["someOtherKey"], "preserved");
}

#[test]
fn trust_repo_is_idempotent() {
    let before = trust_repo(None, "/repo", HOME).unwrap();
    let after = trust_repo(Some(&before), "/repo", HOME).unwrap();
    assert_eq!(before, after);
}

#[test]
fn tilde_in_repo_path_is_expanded() {
    let content = r#"{"projects": {"/home/me/myrepo": {"hasTrustDialogAccepted": true}}}"#;
    assert!(is_repo_trusted(Some(content), "~/myrepo", HOME).unwrap());
}

#[test]
fn a_key_is_the_expanded_path() {
    assert_eq!(project_key("~/myrepo", HOME), "/home/me/myrepo");
    assert_eq!(project_key("/repo", HOME), "/repo");
}

#[test]
fn trusting_makes_a_repo_trusted_and_keeps_the_rest() {
    let content = r#"{"other": 1, "projects": {"/a": {"hasTrustDialogAccepted": true}}}"#;
    let updated = trust_repo(Some(content), "/b", HOME).unwrap();
    assert!(is_repo_trusted(Some(&updated), "/a", HOME).unwrap());
    assert!(is_repo_trusted(Some(&updated), "/b", HOME).unwrap());
    assert!(!is_repo_trusted(Some(&updated), "/c", HOME).unwrap());
    let value: serde_json::Value = serde_json::from_str(&updated).unwrap();
    assert_eq!(value["other"], 1);
}

#[test]
fn the_settings_are_written_indented() {
    assert_eq!(
        trust_repo(None, "/repo", HOME).unwrap(),
        "{\n  \"projects\": {\n    \"/repo\": {\n      \"hasTrustDialogAccepted\": true\n    }\n  }\n}"
    );
}

#[test]
fn settings_of_another_shape_are_refused() {
    let refusal = |content: &str| {
        trust_repo(Some(content), "/repo", HOME)
            .unwrap_err()
            .to_message("/home/me/settings.json", "~/settings.json")
    };
    assert_eq!(
        refusal("not json"),
        "failed to parse /home/me/settings.json: expected ident at line 1 column 2"
    );
    assert_eq!(refusal("[]"), "~/settings.json root is not a JSON object");
    assert_eq!(
        refusal(r#"{"projects": 3}"#),
        "~/settings.json 'projects' is not a JSON object"
    );
    assert_eq!(
        refusal(r#"{"projects": {"/repo": null}}"#),
        "project entry is not a JSON object"
    );
    assert_eq!(
        TrustError::NotWritten.to_message("/p", "~/s"),
        "failed to serialize ~/s"
    );
    assert_eq!(
        is_repo_trusted(Some("{"), "/repo", HOME),
        Err(TrustError::Malformed(
            "EOF while parsing an object at line 1 column 1".to_string()
        ))
    );
}

#[test]
fn settings_with_integers_are_left_as_they_are() {
    let content = r#"{"big": 18446744073709551615, "small": -9223372036854775808}"#;
    let once = trust_repo(Some(content), "/repo/", HOME).unwrap();
    let twice = trust_repo(Some(&once), "/repo", HOME).unwrap();
    assert_eq!(once, twice);
    let value: serde_json::Value = serde_json::from_str(&once).unwrap();
    assert_eq!(value["big"].as_u64(), Some(u64::MAX));
    assert_eq!(value["small"].as_i64(), Some(i64::MIN));
}

#[test]
fn settings_with_a_number_that_reads_back_are_left_as_they_are() {
    let content = r#"{"zoom": 1.5, "projects": {"/repo": {"cost": 0.25, "name": "kept"}}}"#;
    let once = trust_repo(Some(content), "/repo", HOME).unwrap();
    let twice = trust_repo(Some(&once), "/repo", HOME).unwrap();
    assert_eq!(once, twice);
    let value: serde_json::Value = serde_json::from_str(&once).unwrap();
    assert_eq!(value["zoom"].as_f64(), Some(1.5));
    assert_eq!(value["projects"]["/repo"]["cost"].as_f64(), Some(0.25));
    assert_eq!(value["projects"]["/repo"]["name"], "kept");
    assert_eq!(flag(&once, "/repo"), Some(true));
}
