use rebarr::quality_rules::{
    default_provider_rules, rule_change_result, validate_rule_name, ProviderDefault, QualityRule, RuleCondition,
};

fn cond(field: &str, op: &str, value: &str) -> RuleCondition {
    RuleCondition { field: field.to_string(), op: op.to_string(), value: Some(value.to_string()), negate: false }
}

#[test]
fn names_must_not_be_blank() {
    assert!(validate_rule_name("Prefer official").is_ok());
    let e = validate_rule_name("   ").unwrap_err();
    assert_eq!((e.status.code(), e.body.error.as_str()), (400, "name must not be empty"));
    assert!(rule_change_result(true).is_ok());
    let e = rule_change_result(false).unwrap_err();
    assert_eq!((e.status.code(), e.body.error.as_str()), (404, "rule not found"));
}

#[test]
fn providers_without_rules_get_a_default_one() {
    let existing = vec![QualityRule {
        id: "r".to_string(),
        sort_order: 1,
        name: "Mine".to_string(),
        score: 3,
        conditions: vec![cond("language", "eq", "en"), cond("provider_name", "eq", "MangaDex")],
    }];
    let providers = vec![
        ProviderDefault { name: "MangaDex".to_string(), default_score: Some(10) },
        ProviderDefault { name: "Weeb".to_string(), default_score: Some(-5) },
        ProviderDefault { name: "NoScore".to_string(), default_score: None },
    ];
    let added = default_provider_rules(&existing, &providers);
    assert_eq!(added.len(), 1);
    assert_eq!(added[0].name, "Default: Weeb");
    assert_eq!(added[0].score, -5);
    assert_eq!(added[0].sort_order, 0);
    assert_eq!(added[0].conditions.len(), 1);
    assert_eq!(added[0].conditions[0].field, "provider_name");
    assert_eq!(added[0].conditions[0].op, "eq");
    assert_eq!(added[0].conditions[0].value, Some("Weeb".to_string()));
    // A rule that only mentions the provider with another operator does not count.
    let contains = vec![QualityRule {
        id: "r".to_string(),
        sort_order: 1,
        name: "x".to_string(),
        score: 0,
        conditions: vec![cond("provider_name", "contains", "Weeb")],
    }];
    assert_eq!(default_provider_rules(&contains, &providers).len(), 2);
}
