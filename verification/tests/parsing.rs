use issue_relay::json::parse_create_issue;

#[test]
fn well_formed_body_is_accepted() {
    let body = r#"{"title":"Crash on save","description":"It crashes.","confidential":false}"#;
    let req = parse_create_issue(body).unwrap();
    assert_eq!(req.title, "Crash on save");
    assert_eq!(req.description, "It crashes.");
    assert!(!req.confidential);
}

#[test]
fn members_may_come_in_any_order() {
    let body = r#"{"confidential":true,"title":"T","description":"D"}"#;
    let req = parse_create_issue(body).unwrap();
    assert_eq!(req.title, "T");
    assert_eq!(req.description, "D");
    assert!(req.confidential);
}

#[test]
fn whitespace_between_tokens_is_allowed() {
    let body = " {\t\"title\" : \"T\" ,\n \"description\" : \"\" , \"confidential\" : true } \r\n";
    let req = parse_create_issue(body).unwrap();
    assert_eq!(req.title, "T");
    assert_eq!(req.description, "");
    assert!(req.confidential);
}

#[test]
fn empty_title_is_accepted() {
    let body = r#"{"title":"","description":"x","confidential":false}"#;
    let req = parse_create_issue(body).unwrap();
    assert_eq!(req.title, "");
}

#[test]
fn missing_title_is_rejected() {
    let body = r#"{"description":"no title here","confidential":false}"#;
    assert!(parse_create_issue(body).is_none());
}

#[test]
fn missing_description_is_rejected() {
    let body = r#"{"title":"T","confidential":false}"#;
    assert!(parse_create_issue(body).is_none());
}

#[test]
fn missing_confidential_is_rejected() {
    let body = r#"{"title":"T","description":"D"}"#;
    assert!(parse_create_issue(body).is_none());
}

#[test]
fn empty_object_is_rejected() {
    assert!(parse_create_issue("{}").is_none());
    assert!(parse_create_issue("").is_none());
    assert!(parse_create_issue("   ").is_none());
}

#[test]
fn duplicate_member_is_rejected() {
    let body = r#"{"title":"A","title":"B","confidential":false}"#;
    assert!(parse_create_issue(body).is_none());
}

#[test]
fn unknown_member_is_rejected() {
    let body = r#"{"title":"T","description":"D","assignee":"me"}"#;
    assert!(parse_create_issue(body).is_none());
}

#[test]
fn wrong_value_type_is_rejected() {
    let body = r#"{"title":"T","description":"D","confidential":"yes"}"#;
    assert!(parse_create_issue(body).is_none());
    let body = r#"{"title":true,"description":"D","confidential":false}"#;
    assert!(parse_create_issue(body).is_none());
}

#[test]
fn trailing_text_is_rejected() {
    let body = r#"{"title":"T","description":"D","confidential":false} extra"#;
    assert!(parse_create_issue(body).is_none());
}

#[test]
fn unterminated_string_is_rejected() {
    let body = r#"{"title":"T,"description":"D","confidential":false}"#;
    assert!(parse_create_issue(body).is_none());
}

#[test]
fn escapes_are_decoded() {
    let body = r#"{"title":"a \"quoted\" word","description":"line\nbreak\tand \\ slash \/","confidential":false}"#;
    let req = parse_create_issue(body).unwrap();
    assert_eq!(req.title, "a \"quoted\" word");
    assert_eq!(req.description, "line\nbreak\tand \\ slash /");
}

#[test]
fn unknown_escape_is_rejected() {
    let body = r#"{"title":"bad \q escape","description":"D","confidential":false}"#;
    assert!(parse_create_issue(body).is_none());
}

#[test]
fn raw_control_character_is_rejected() {
    let body = "{\"title\":\"a\nb\",\"description\":\"D\",\"confidential\":false}";
    assert!(parse_create_issue(body).is_none());
}

#[test]
fn boolean_literals_are_read_exactly() {
    let body = r#"{"title":"T","description":"D","confidential":true}"#;
    assert!(parse_create_issue(body).unwrap().confidential);
    let body = r#"{"title":"T","description":"D","confidential":tru}"#;
    assert!(parse_create_issue(body).is_none());
}
