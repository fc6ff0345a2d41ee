use dispatch::feed::parse::{accept_items, parse_feed_items, FeedParseError};
use dispatch::models::{FeedItem, Signal, TaskStatus, TaskTag, UrlType, WrapUpMode};

#[test]
fn valid_item_parsed() {
    let json =
        br#"[{"external_id":"1","title":"T","description":"D","status":"backlog","tag":"bug"}]"#;
    let items = parse_feed_items(json).unwrap();
    assert_eq!(items.len(), 1);
    assert_eq!(items[0].title, "T");
    assert_eq!(items[0].external_id, "1");
}

#[test]
fn empty_array_parsed() {
    let items = parse_feed_items(b"[]").unwrap();
    assert!(items.is_empty());
}

#[test]
fn missing_required_tag_fails() {
    let json = br#"[{"external_id":"1","title":"T","description":"","status":"backlog"}]"#;
    assert!(
        parse_feed_items(json).is_err(),
        "missing tag must fail deserialization"
    );
}

#[test]
fn malformed_json_fails() {
    assert!(
        parse_feed_items(b"not-json").is_err(),
        "malformed JSON must fail"
    );
}

#[test]
fn explicit_url_type_parsed_verbatim() {
    let json = br#"[{
        "external_id": "dependabot:org/repo#7",
        "title": "CVE-2026-1234",
        "description": "",
        "url": "https://github.com/org/repo/security/dependabot/7",
        "url_type": "security_alert",
        "status": "backlog",
        "tag": "fix"
    }]"#;
    let items = parse_feed_items(json).unwrap();
    assert_eq!(
        items[0].url_type,
        Some(UrlType::SecurityAlert)
    );
}

#[test]
fn omitted_url_type_defaults_to_none() {
    let json =
        br#"[{"external_id":"1","title":"T","description":"D","status":"backlog","tag":"bug"}]"#;
    let items = parse_feed_items(json).unwrap();
    assert_eq!(items[0].url_type, None, "wire compatibility: absent field");
}

#[test]
fn unknown_url_type_fails() {
    let json = br#"[{"external_id":"1","title":"T","description":"","url_type":"bogus","status":"backlog","tag":"bug"}]"#;
    assert!(
        parse_feed_items(json).is_err(),
        "unknown url_type must fail deserialization, consistent with tag"
    );
}

#[test]
fn unrecognised_signal_dropped_not_fatal() {
    let json = br#"[{
        "external_id": "1",
        "title": "T",
        "description": "",
        "url": "https://github.com/o/r/pull/1",
        "status": "backlog",
        "tag": "pr-review",
        "signals": ["reviewed", "bogus"]
    }]"#;
    let items = parse_feed_items(json).unwrap();
    assert_eq!(items.len(), 1, "an unknown signal must not fail the item");
    assert_eq!(
        items[0].signals,
        vec![Signal::Reviewed],
        "the unrecognised signal is dropped, the recognised one kept"
    );
}

#[test]
fn author_label_at_prefix_preserved() {
    let json = br##"[{
        "external_id": "review:org/repo#7",
        "title": "#7 My PR",
        "description": "",
        "url": "https://github.com/org/repo/pull/7",
        "status": "backlog",
        "tag": "pr-review",
        "labels": ["@johndoe", "repo"]
    }]"##;
    let items = parse_feed_items(json).unwrap();
    assert_eq!(items.len(), 1);
    assert_eq!(
        items[0].labels,
        vec!["@johndoe".to_string(), "repo".to_string()]
    );
}

fn review_tag_wire_names() -> Vec<&'static str> {
    [
        TaskTag::Bug,
        TaskTag::Fix,
        TaskTag::Chore,
        TaskTag::PrReview,
        TaskTag::Dependabot,
    ]
    .into_iter()
    .filter(|tag| tag.is_review())
    .map(|tag| tag.as_str())
    .collect()
}

#[test]
fn every_review_tag_requires_a_url() {
    for tag in review_tag_wire_names() {
        let json = format!(
            r#"[{{"external_id":"1","title":"T","description":"","status":"backlog","tag":"{tag}"}}]"#
        );
        assert!(
            parse_feed_items(json.as_bytes()).is_err(),
            "a {tag} item with no url must reject the emission"
        );
    }
}

#[test]
fn a_review_tagged_item_with_a_pr_url_parses() {
    let json = br#"[{"external_id":"1","title":"T","description":"","url":"https://github.com/o/r/pull/42","status":"backlog","tag":"dependabot"}]"#;
    let items = parse_feed_items(json).expect("a pr url satisfies the rule");
    assert_eq!(items.len(), 1);
}

#[test]
fn a_review_tagged_item_with_a_non_pr_url_rejects_the_emission() {
    let json = br#"[{"external_id":"1","title":"T","description":"","url":"https://github.com/o/r/issues/42","status":"backlog","tag":"pr-review"}]"#;
    assert!(
        parse_feed_items(json).is_err(),
        "an issue url must not satisfy a review tag"
    );
}

#[test]
fn an_explicit_pr_url_type_satisfies_the_rule_where_inference_would_not() {
    let json = br#"[{"external_id":"1","title":"T","description":"","url":"https://example.com/review/42","url_type":"pr","status":"backlog","tag":"dependabot"}]"#;
    let items = parse_feed_items(json).expect("an explicit pr url_type satisfies the rule");
    assert_eq!(items.len(), 1);
}

#[test]
fn an_explicit_non_pr_url_type_overrides_a_pr_shaped_url() {
    let json = br#"[{"external_id":"1","title":"T","description":"","url":"https://github.com/o/r/pull/42","url_type":"other","status":"backlog","tag":"dependabot"}]"#;
    assert!(
        parse_feed_items(json).is_err(),
        "an explicit url_type must be taken at its word, as ingest takes it"
    );
}

#[test]
fn a_non_review_tag_is_unconstrained() {
    for item in [
        r#"{"external_id":"1","title":"T","description":"","status":"backlog","tag":"fix"}"#,
        r#"{"external_id":"2","title":"T","description":"","url":"https://github.com/o/r/security/dependabot/7","url_type":"security_alert","status":"backlog","tag":"fix"}"#,
        r#"{"external_id":"3","title":"T","description":"","url":"https://example.com/x","status":"backlog","tag":"chore"}"#,
    ] {
        let json = format!("[{item}]");
        assert!(
            parse_feed_items(json.as_bytes()).is_ok(),
            "a non-review tag must not be constrained: {item}"
        );
    }
}

#[test]
fn one_non_conforming_item_rejects_the_whole_array() {
    let json = br#"[
        {"external_id":"1","title":"good","description":"","url":"https://github.com/o/r/pull/1","status":"backlog","tag":"dependabot"},
        {"external_id":"2","title":"bad","description":"","status":"backlog","tag":"dependabot"}
    ]"#;
    assert!(
        parse_feed_items(json).is_err(),
        "a valid sibling must not rescue a non-conforming item"
    );
}

#[test]
fn the_rejection_names_the_item_and_the_tag() {
    let json = br#"[{"external_id":"dep:o/r#42","title":"T","description":"","status":"backlog","tag":"dependabot"}]"#;
    let err = parse_feed_items(json).expect_err("must reject").to_message();
    assert!(
        err.contains("dep:o/r#42"),
        "the error must name the offending external_id, got: {err}"
    );
    assert!(
        err.contains("dependabot"),
        "the error must name the tag that triggered the rule, got: {err}"
    );
}

fn item(tag: TaskTag, url: &str, url_type: Option<UrlType>) -> FeedItem {
    FeedItem {
        external_id: "x".to_string(),
        title: "T".to_string(),
        description: String::new(),
        url: url.to_string(),
        url_type,
        status: TaskStatus::Backlog,
        tag,
        labels: vec![],
        sort_order: None,
        signals: vec![],
        wrap_up_mode: None,
    }
}

#[test]
fn every_field_is_read() {
    let json = br#"[{
        "external_id": "e", "title": "t", "description": "d", "url": "u", "url_type": "issue",
        "status": "running", "tag": "chore", "labels": ["a", "b"], "sort_order": -3,
        "signals": ["direct-request", "team-request", "commented", "author-bot", "author-me",
                    "org-review", "approved"],
        "wrap_up_mode": "rebase", "unheard_of": {"x": []}
    }]"#;
    let items = parse_feed_items(json).unwrap();
    let item = &items[0];
    assert_eq!(item.external_id, "e");
    assert_eq!(item.title, "t");
    assert_eq!(item.description, "d");
    assert_eq!(item.url, "u");
    assert_eq!(item.url_type, Some(UrlType::Issue));
    assert_eq!(item.status, TaskStatus::Running);
    assert_eq!(item.tag, TaskTag::Chore);
    assert_eq!(item.labels, vec!["a", "b"]);
    assert_eq!(item.sort_order, Some(-3));
    assert_eq!(
        item.signals,
        vec![
            Signal::DirectRequest,
            Signal::TeamRequest,
            Signal::Commented,
            Signal::AuthorBot,
            Signal::AuthorMe,
            Signal::OrgReview,
            Signal::Approved,
        ]
    );
    assert_eq!(item.wrap_up_mode, Some(WrapUpMode::Rebase));
}

#[test]
fn null_stands_for_an_optional_field_left_out() {
    let json = br#"[{"external_id":"1","title":"T","description":"","status":"backlog","tag":"bug","url_type":null,"sort_order":null,"wrap_up_mode":null}]"#;
    let items = parse_feed_items(json).unwrap();
    assert_eq!(items[0].url_type, None);
    assert_eq!(items[0].sort_order, None);
    assert_eq!(items[0].wrap_up_mode, None);
}

#[test]
fn the_first_bad_item_is_counted() {
    let json = br#"[
        {"external_id":"1","title":"T","description":"","status":"backlog","tag":"bug"},
        {"external_id":"2","title":"T","description":"","status":"sideways","tag":"bug"},
        7
    ]"#;
    let error = parse_feed_items(json).unwrap_err();
    assert_eq!(error, FeedParseError::BadItem(1));
    assert_eq!(error.to_message(), "item 1 is no feed item");
}

#[test]
fn fields_of_another_sort_make_a_bad_item() {
    for field in [
        r#""labels":["a",1]"#,
        r#""labels":"a""#,
        r#""signals":[1]"#,
        r#""sort_order":1.5"#,
        r#""sort_order":"1""#,
        r#""url":null"#,
        r#""wrap_up_mode":"later""#,
        r#""url_type":1"#,
    ] {
        let json = format!(
            r#"[{{"external_id":"1","title":"T","description":"","status":"backlog","tag":"bug",{field}}}]"#
        );
        assert_eq!(
            parse_feed_items(json.as_bytes()).unwrap_err(),
            FeedParseError::BadItem(0),
            "{field}"
        );
    }
}

#[test]
fn what_is_no_list_is_refused() {
    for bytes in [&b"{}"[..], b"null"] {
        let error = parse_feed_items(bytes).unwrap_err();
        assert_eq!(error, FeedParseError::NoList);
        assert_eq!(error.to_message(), "the output is no JSON list of items");
    }
}

#[test]
fn what_is_no_json_is_refused_with_its_place() {
    for (bytes, why) in [
        (&b""[..], "EOF while parsing a value at line 1 column 0"),
        (b"[", "EOF while parsing a list at line 1 column 1"),
        (b"not-json", "expected ident at line 1 column 2"),
        (b"[] []", "trailing characters at line 1 column 4"),
    ] {
        let error = parse_feed_items(bytes).unwrap_err();
        assert_eq!(error, FeedParseError::Malformed(why.to_string()));
        assert_eq!(error.to_message(), why);
    }
    assert!(matches!(
        parse_feed_items(b"\xff"),
        Err(FeedParseError::Malformed(_))
    ));
}

#[test]
fn the_first_review_without_a_pull_request_refuses_the_items() {
    let good = item(TaskTag::PrReview, "https://github.com/o/r/pull/1", None);
    let mut bad = item(TaskTag::Dependabot, "", Some(UrlType::Pr));
    bad.external_id = "y".to_string();
    assert_eq!(accept_items(vec![good.clone()]).unwrap().len(), 1);
    let error = accept_items(vec![good, bad]).unwrap_err();
    assert_eq!(
        error,
        FeedParseError::NoPullRequest {
            external_id: "y".to_string(),
            tag: TaskTag::Dependabot
        }
    );
    assert_eq!(
        error.to_message(),
        "item y is tagged dependabot and names no pull request"
    );
}
