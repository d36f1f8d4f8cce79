use rebarr::metadata_rules::{
    create_rule, create_rule_with_id, delete_rule, sort_by_order, update_rule, validate_action, validate_field,
    CreateMetadataRuleRequest, MetadataRule, MetadataRuleResponse, UpdateMetadataRuleRequest,
};

fn rule(id: &str, order: i32) -> MetadataRule {
    MetadataRule {
        id: id.to_string(),
        sort_order: order,
        name: format!("rule {id}"),
        provider_name: None,
        field: "title".to_string(),
        action: "clear".to_string(),
        pattern: Some("^Chapter".to_string()),
        value: None,
    }
}

fn ids(v: &[MetadataRule]) -> Vec<String> {
    v.iter().map(|r| r.id.clone()).collect()
}

#[test]
fn fields_and_actions_are_validated() {
    assert!(validate_field("title").is_ok());
    assert!(validate_field("scanlator_group").is_ok());
    let e = validate_field("Title").unwrap_err();
    assert_eq!((e.status.code(), e.body.error.as_str()), (400, "field must be 'title' or 'scanlator_group'"));
    for a in ["clear", "set", "replace"] {
        assert!(validate_action(a).is_ok());
    }
    let e = validate_action("drop").unwrap_err();
    assert_eq!(e.body.error, "action must be 'clear', 'set', or 'replace'");
}

#[test]
fn rules_sort_stably_by_order() {
    let v = vec![rule("a", 5), rule("b", 1), rule("c", 5), rule("d", -2), rule("e", 1)];
    assert_eq!(ids(&sort_by_order(v)), vec!["d", "b", "e", "a", "c"]);
}

#[test]
fn create_adds_and_sorts() {
    let req = CreateMetadataRuleRequest {
        name: "new".to_string(),
        sort_order: 3,
        provider_name: Some("MangaDex".to_string()),
        field: "scanlator_group".to_string(),
        action: "set".to_string(),
        pattern: None,
        value: Some("Official".to_string()),
    };
    let (list, made) = create_rule_with_id(vec![rule("a", 1), rule("b", 3), rule("c", 7)], &req, "n".to_string()).unwrap();
    assert_eq!(ids(&list), vec!["a", "b", "n", "c"]);
    assert_eq!(made.id, "n");
    assert_eq!(made.value, Some("Official".to_string()));
    let resp = MetadataRuleResponse::from_rule(made);
    assert_eq!(resp.field, "scanlator_group");
    let mut bad = req;
    bad.action = "nuke".to_string();
    let e = create_rule_with_id(vec![], &bad, "x".to_string()).unwrap_err();
    assert_eq!(e.body.error, "action must be 'clear', 'set', or 'replace'");
    bad.field = "volume".to_string();
    let e = create_rule_with_id(vec![], &bad, "x".to_string()).unwrap_err();
    assert_eq!(e.body.error, "field must be 'title' or 'scanlator_group'");
}

#[test]
fn update_changes_present_fields_and_always_pattern_and_value() {
    let req = UpdateMetadataRuleRequest {
        name: None,
        sort_order: Some(0),
        provider_name: None,
        field: None,
        action: Some("replace".to_string()),
        pattern: None,
        value: Some("X".to_string()),
    };
    let (list, changed) = update_rule(vec![rule("a", 1), rule("b", 3)], "b", &req).unwrap();
    assert_eq!(ids(&list), vec!["b", "a"]);
    assert_eq!(changed.name, "rule b");
    assert_eq!(changed.action, "replace");
    assert_eq!(changed.pattern, None);
    assert_eq!(changed.value, Some("X".to_string()));
    let e = update_rule(vec![rule("a", 1)], "zz", &req).unwrap_err();
    assert_eq!((e.status.code(), e.body.error.as_str()), (404, "metadata rule not found"));
    let mut bad = req;
    bad.field = Some("nope".to_string());
    let e = update_rule(vec![rule("a", 1)], "a", &bad).unwrap_err();
    assert_eq!(e.status.code(), 400);
}

#[test]
fn delete_removes_by_id() {
    let list = delete_rule(vec![rule("a", 1), rule("b", 2), rule("a", 3)], "a").unwrap();
    assert_eq!(ids(&list), vec!["b"]);
    let e = delete_rule(vec![rule("a", 1)], "b").unwrap_err();
    assert_eq!((e.status.code(), e.body.error.as_str()), (404, "metadata rule not found"));
}

#[test]
fn created_rules_get_fresh_uuids() {
    let req = CreateMetadataRuleRequest {
        name: "n".to_string(),
        sort_order: 0,
        provider_name: None,
        field: "title".to_string(),
        action: "clear".to_string(),
        pattern: Some("x".to_string()),
        value: None,
    };
    let (list, a) = create_rule(vec![], &req).unwrap();
    let (_, b) = create_rule(vec![], &req).unwrap();
    assert_eq!(list.len(), 1);
    assert_eq!(a.id.len(), 36);
    assert_eq!(a.id.matches('-').count(), 4);
    assert_ne!(a.id, b.id);
    assert_eq!(uuid::Uuid::parse_str(&a.id).unwrap().get_version_num(), 4);
}
