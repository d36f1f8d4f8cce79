//! Quality rules: scores added to the chapters whose fields match all of a
//! rule's conditions. Here: the rules' shapes, the validation of requests, and
//! the default rule each provider gets while it has none.

use vstd::prelude::*;
use crate::errors::{bad_request, is_failure, not_found, ApiFailure, ApiStatus};
use crate::text::{push_str, str_eq, trim, trim_seq};

verus! {

/// One condition of a rule; all of a rule's conditions must match.
#[derive(Debug)]
pub struct RuleCondition {
    /// "scanlator_group", "provider_name", "language", "title" or "released_at".
    pub field: String,
    /// "eq", "contains", "regex", "present" or "not_present".
    pub op: String,
    /// Compared against; ignored by "present" and "not_present".
    pub value: Option<String>,
    /// Inverts the match.
    pub negate: bool,
}

/// A stored rule.
#[derive(Debug)]
pub struct QualityRule {
    pub id: String,
    pub sort_order: i32,
    pub name: String,
    pub score: i32,
    pub conditions: Vec<RuleCondition>,
}

/// A request to create a rule.
#[derive(Debug)]
pub struct CreateRuleRequest {
    pub name: String,
    pub score: i32,
    pub sort_order: i32,
    pub conditions: Vec<RuleCondition>,
}

/// A request to replace a rule's contents.
#[derive(Debug)]
pub struct UpdateRuleRequest {
    pub name: String,
    pub score: i32,
    pub sort_order: i32,
    pub conditions: Vec<RuleCondition>,
}

/// New sort orders: pairs of rule id and order.
#[derive(Debug)]
pub struct ReorderRequest {
    pub ordering: Vec<(String, i32)>,
}

/// A condition field the rule builder offers, with its operators.
#[derive(Debug)]
pub struct FieldInfo {
    pub field: String,
    pub label: String,
    pub ops: Vec<String>,
}

/// A rule's name must hold more than whitespace.
pub fn validate_rule_name(name: &str) -> (r: Result<(), ApiFailure>)
    ensures
        r is Ok <==> trim_seq(name@).len() > 0,
        r matches Err(f) ==> is_failure(f, ApiStatus::BadRequest, "name must not be empty"@),
{
    let t = trim(name);
    if t.as_str().unicode_len() == 0 {
        Err(bad_request("name must not be empty"))
    } else {
        Ok(())
    }
}

/// The answer to an update or delete of a rule, given whether a stored rule
/// had the id.
pub fn rule_change_result(changed: bool) -> (r: Result<(), ApiFailure>)
    ensures
        r is Ok <==> changed,
        r matches Err(f) ==> is_failure(f, ApiStatus::NotFound, "rule not found"@),
{
    if changed {
        Ok(())
    } else {
        Err(not_found("rule not found"))
    }
}

// ---------------------------------------------------------------------------
// Default provider rules
// ---------------------------------------------------------------------------

/// A provider and the score its chapters get by default, if any.
#[derive(Debug)]
pub struct ProviderDefault {
    pub name: String,
    pub default_score: Option<i32>,
}

/// A rule to be stored.
#[derive(Debug)]
pub struct NewQualityRule {
    pub name: String,
    pub score: i32,
    pub sort_order: i32,
    pub conditions: Vec<RuleCondition>,
}

/// Whether a condition picks out the given provider by name.
pub open spec fn names_provider(c: RuleCondition, p: Seq<char>) -> bool {
    &&& c.field@ == "provider_name"@
    &&& c.op@ == "eq"@
    &&& c.value matches Some(v) && v@ == p
}

/// Whether some stored rule already has a condition on the provider.
pub open spec fn provider_has_rule(rules: Seq<QualityRule>, p: Seq<char>) -> bool {
    exists|i: int, j: int| 0 <= i < rules.len() && 0 <= j < rules[i].conditions@.len()
        && #[trigger] names_provider(rules[i].conditions@[j], p)
}

/// Whether a new rule is the default rule of a provider with a score:
/// "Default: {name}", that score, sort order 0 (applied last), and the one
/// condition that the provider name equals the name.
pub open spec fn is_default_rule(r: NewQualityRule, p: Seq<char>, score: i32) -> bool {
    &&& r.name@ == "Default: "@ + p
    &&& r.score == score
    &&& r.sort_order == 0
    &&& r.conditions@.len() == 1
    &&& r.conditions@[0].field@ == "provider_name"@
    &&& r.conditions@[0].op@ == "eq"@
    &&& r.conditions@[0].value matches Some(v) && v@ == p
    &&& !r.conditions@[0].negate
}

/// The providers that get a default rule, in order: those with a default
/// score and no rule on them yet.
pub open spec fn gets_default(rules: Seq<QualityRule>, p: ProviderDefault) -> bool {
    p.default_score is Some && !provider_has_rule(rules, p.name@)
}

pub open spec fn defaults_spec(rules: Seq<QualityRule>, ps: Seq<ProviderDefault>) -> Seq<ProviderDefault>
    decreases ps.len(),
{
    if ps.len() == 0 {
        Seq::empty()
    } else {
        let rest = defaults_spec(rules, ps.drop_last());
        if gets_default(rules, ps.last()) { rest.push(ps.last()) } else { rest }
    }
}

fn has_rule_for(rules: &Vec<QualityRule>, p: &str) -> (r: bool)
    ensures
        r == provider_has_rule(rules@, p@),
{
    let mut i: usize = 0;
    while i < rules.len()
        invariant
            i <= rules@.len(),
            forall|a: int, b: int| 0 <= a < i && 0 <= b < rules@[a].conditions@.len()
                ==> !#[trigger] names_provider(rules@[a].conditions@[b], p@),
        decreases rules.len() - i,
    {
        let conds = &rules[i].conditions;
        let mut j: usize = 0;
        while j < conds.len()
            invariant
                i < rules@.len(),
                conds@ == rules@[i as int].conditions@,
                j <= conds@.len(),
                forall|b: int| 0 <= b < j ==> !#[trigger] names_provider(rules@[i as int].conditions@[b], p@),
            decreases conds.len() - j,
        {
            let c = &conds[j];
            if str_eq(c.field.as_str(), "provider_name") && str_eq(c.op.as_str(), "eq") {
                if let Some(v) = &c.value {
                    if str_eq(v.as_str(), p) {
                        assert(names_provider(rules@[i as int].conditions@[j as int], p@));
                        return true;
                    }
                }
            }
            j = j + 1;
        }
        i = i + 1;
    }
    false
}

/// The default rules to add: one for each provider with a default score that
/// no stored rule names yet, in the providers' order. Stored rules are never
/// changed.
pub fn default_provider_rules(existing: &Vec<QualityRule>, providers: &Vec<ProviderDefault>) -> (r: Vec<NewQualityRule>)
    ensures
        r@.len() == defaults_spec(existing@, providers@).len(),
        forall|k: int| 0 <= k < r@.len() ==> {
            let p = #[trigger] defaults_spec(existing@, providers@)[k];
            is_default_rule(r@[k], p.name@, p.default_score.unwrap())
        },
{
    let mut out: Vec<NewQualityRule> = Vec::new();
    let mut i: usize = 0;
    while i < providers.len()
        invariant
            i <= providers@.len(),
            out@.len() == defaults_spec(existing@, providers@.take(i as int)).len(),
            forall|k: int| 0 <= k < out@.len() ==> {
                let p = #[trigger] defaults_spec(existing@, providers@.take(i as int))[k];
                is_default_rule(out@[k], p.name@, p.default_score.unwrap())
            },
        decreases providers.len() - i,
    {
        let p = &providers[i];
        proof {
            assert(providers@.take(i + 1).drop_last() =~= providers@.take(i as int));
        }
        if let Some(score) = p.default_score {
            if !has_rule_for(existing, p.name.as_str()) {
                let mut name = "Default: ".to_owned();
                push_str(&mut name, p.name.as_str());
                let mut conditions: Vec<RuleCondition> = Vec::new();
                conditions.push(RuleCondition {
                    field: "provider_name".to_owned(),
                    op: "eq".to_owned(),
                    value: Some(p.name.clone()),
                    negate: false,
                });
                out.push(NewQualityRule { name, score, sort_order: 0, conditions });
            }
        }
        i = i + 1;
    }
    assert(providers@.take(providers@.len() as int) =~= providers@);
    out
}

} // verus!
