//! Metadata rules: user-defined rewrites of scraped chapter fields, kept as an
//! ordered list. The API validates a rule, adds, changes or removes it, and
//! keeps the list in `sort_order` order, earlier rules first among equals.

use vstd::prelude::*;
use crate::errors::{bad_request, is_failure, not_found, ApiFailure, ApiStatus};
use crate::ids::{new_v4, uuid_string, uuid_text};
use crate::text::{clone_opt, str_eq};

verus! {

/// A stored metadata rule.
#[derive(Debug)]
pub struct MetadataRule {
    pub id: String,
    pub sort_order: i32,
    pub name: String,
    /// Provider the rule applies to (case-insensitive); `None` for all.
    pub provider_name: Option<String>,
    /// "title" or "scanlator_group".
    pub field: String,
    /// "clear", "set" or "replace".
    pub action: String,
    /// For "clear" and "replace": the pattern matched against the field.
    pub pattern: Option<String>,
    /// For "set": the new value; for "replace": the replacement.
    pub value: Option<String>,
}

impl MetadataRule {
    /// A field-by-field copy.
    pub fn copy(&self) -> (r: Self)
        ensures
            r == *self,
    {
        MetadataRule {
            id: self.id.clone(),
            sort_order: self.sort_order,
            name: self.name.clone(),
            provider_name: clone_opt(&self.provider_name),
            field: self.field.clone(),
            action: self.action.clone(),
            pattern: clone_opt(&self.pattern),
            value: clone_opt(&self.value),
        }
    }
}

/// A request to create a rule.
#[derive(Debug)]
pub struct CreateMetadataRuleRequest {
    pub name: String,
    pub sort_order: i32,
    pub provider_name: Option<String>,
    pub field: String,
    pub action: String,
    pub pattern: Option<String>,
    pub value: Option<String>,
}

/// A request to change a rule: present fields replace the rule's; `pattern`
/// and `value` are always replaced, absent ones by nothing.
#[derive(Debug)]
pub struct UpdateMetadataRuleRequest {
    pub name: Option<String>,
    pub sort_order: Option<i32>,
    pub provider_name: Option<String>,
    pub field: Option<String>,
    pub action: Option<String>,
    pub pattern: Option<String>,
    pub value: Option<String>,
}

/// A rule as the API returns it.
#[derive(Debug)]
pub struct MetadataRuleResponse {
    pub id: String,
    pub sort_order: i32,
    pub name: String,
    pub provider_name: Option<String>,
    pub field: String,
    pub action: String,
    pub pattern: Option<String>,
    pub value: Option<String>,
}

impl MetadataRuleResponse {
    /// The response for a rule: the same fields.
    pub fn from_rule(r: MetadataRule) -> (out: Self)
        ensures
            out.id == r.id,
            out.sort_order == r.sort_order,
            out.name == r.name,
            out.provider_name == r.provider_name,
            out.field == r.field,
            out.action == r.action,
            out.pattern == r.pattern,
            out.value == r.value,
    {
        MetadataRuleResponse {
            id: r.id,
            sort_order: r.sort_order,
            name: r.name,
            provider_name: r.provider_name,
            field: r.field,
            action: r.action,
            pattern: r.pattern,
            value: r.value,
        }
    }
}

pub open spec fn valid_field(f: Seq<char>) -> bool {
    f == "title"@ || f == "scanlator_group"@
}

pub open spec fn valid_action(a: Seq<char>) -> bool {
    a == "clear"@ || a == "set"@ || a == "replace"@
}

/// The field a rule rewrites must be "title" or "scanlator_group".
pub fn validate_field(field: &str) -> (r: Result<(), ApiFailure>)
    ensures
        r is Ok <==> valid_field(field@),
        r matches Err(f) ==> is_failure(f, ApiStatus::BadRequest, "field must be 'title' or 'scanlator_group'"@),
{
    if str_eq(field, "title") || str_eq(field, "scanlator_group") {
        Ok(())
    } else {
        Err(bad_request("field must be 'title' or 'scanlator_group'"))
    }
}

/// The action of a rule must be "clear", "set" or "replace".
pub fn validate_action(action: &str) -> (r: Result<(), ApiFailure>)
    ensures
        r is Ok <==> valid_action(action@),
        r matches Err(f) ==> is_failure(f, ApiStatus::BadRequest, "action must be 'clear', 'set', or 'replace'"@),
{
    if str_eq(action, "clear") || str_eq(action, "set") || str_eq(action, "replace") {
        Ok(())
    } else {
        Err(bad_request("action must be 'clear', 'set', or 'replace'"))
    }
}

// ---------------------------------------------------------------------------
// Ordering
// ---------------------------------------------------------------------------

/// Holds of the rules with the given sort order.
pub open spec fn order_is(k: i32) -> spec_fn(MetadataRule) -> bool {
    |r: MetadataRule| r.sort_order == k
}

pub open spec fn sorted_by_order(s: Seq<MetadataRule>) -> bool {
    forall|i: int, j: int| 0 <= i < j < s.len() ==> s[i].sort_order <= s[j].sort_order
}

/// `r` is `s` sorted by `sort_order`, rules with equal orders keeping their
/// relative order (a stable sort).
pub open spec fn stable_sort_of(r: Seq<MetadataRule>, s: Seq<MetadataRule>) -> bool {
    &&& sorted_by_order(r)
    &&& forall|k: i32| #[trigger] r.filter(order_is(k)) == s.filter(order_is(k))
}

/// Where a rule goes in a sorted list: after every rule of its order or lower.
fn insertion_point(r: &Vec<MetadataRule>, key: i32) -> (p: usize)
    requires
        sorted_by_order(r@),
    ensures
        p <= r@.len(),
        forall|i: int| 0 <= i < p ==> r@[i].sort_order <= key,
        forall|i: int| p <= i < r@.len() ==> r@[i].sort_order > key,
{
    let mut p: usize = 0;
    while p < r.len() && r[p].sort_order <= key
        invariant
            p <= r@.len(),
            sorted_by_order(r@),
            forall|i: int| 0 <= i < p ==> r@[i].sort_order <= key,
        decreases r.len() - p,
    {
        p = p + 1;
    }
    p
}

proof fn lemma_insert_keeps_groups(r: Seq<MetadataRule>, p: int, a: MetadataRule, k: i32)
    requires
        0 <= p <= r.len(),
        forall|i: int| p <= i < r.len() ==> r[i].sort_order > a.sort_order,
    ensures
        r.insert(p, a).filter(order_is(k)) == r.push(a).filter(order_is(k)),
{
    let pred = order_is(k);
    let front = r.subrange(0, p);
    let back = r.subrange(p, r.len() as int);
    assert(r =~= front + back);
    assert(r.insert(p, a) =~= front.push(a) + back);
    Seq::filter_distributes_over_add(front.push(a), back, pred);
    Seq::filter_distributes_over_add(front, back, pred);
    front.lemma_filter_push(a, pred);
    r.lemma_filter_push(a, pred);
    if k == a.sort_order {
        assert(back.all(|x: MetadataRule| !pred(x)));
        back.lemma_all_neg_filter_empty(pred);
        assert(back.filter(pred) =~= Seq::<MetadataRule>::empty());
        assert(front.filter(pred).push(a) + back.filter(pred) =~= (front.filter(pred) + back.filter(pred)).push(a));
    }
}

/// Sorts rules by `sort_order`, rules with equal orders keeping their order.
pub fn sort_by_order(v: Vec<MetadataRule>) -> (r: Vec<MetadataRule>)
    ensures
        stable_sort_of(r@, v@),
        r@.len() == v@.len(),
{
    let mut r: Vec<MetadataRule> = Vec::new();
    let ghost all = v@;
    let mut i: usize = 0;
    let n = v.len();
    while i < n
        invariant
            n == all.len(),
            v@ == all,
            i <= n,
            r@.len() == i,
            sorted_by_order(r@),
            forall|k: i32| #[trigger] r@.filter(order_is(k)) == all.take(i as int).filter(order_is(k)),
        decreases n - i,
    {
        let a = v[i].copy();
        let p = insertion_point(&r, a.sort_order);
        let ghost before = r@;
        r.insert(p, a);
        proof {
            assert(all.take(i + 1) =~= all.take(i as int).push(a));
            assert forall|k: i32| #[trigger] r@.filter(order_is(k)) == all.take(i + 1).filter(order_is(k)) by {
                lemma_insert_keeps_groups(before, p as int, a, k);
                before.lemma_filter_push(a, order_is(k));
                all.take(i as int).lemma_filter_push(a, order_is(k));
            }
            assert forall|x: int, y: int| 0 <= x < y < r@.len() implies r@[x].sort_order <= r@[y].sort_order by {
                before.insert_ensures(p as int, a);
                if x < p && y > p {
                    assert(r@[y] == before[y - 1]);
                } else if x < p && y == p {
                } else if x == p {
                    assert(r@[y] == before[y - 1]);
                } else if x > p {
                    assert(r@[x] == before[x - 1]);
                    assert(r@[y] == before[y - 1]);
                }
            }
        }
        i = i + 1;
    }
    assert(all.take(n as int) =~= all);
    r
}

// ---------------------------------------------------------------------------
// Changes to the list
// ---------------------------------------------------------------------------

/// The rule a create request makes, under the given id.
pub open spec fn rule_from_request(req: CreateMetadataRuleRequest, id: String) -> MetadataRule {
    MetadataRule {
        id,
        sort_order: req.sort_order,
        name: req.name,
        provider_name: req.provider_name,
        field: req.field,
        action: req.action,
        pattern: req.pattern,
        value: req.value,
    }
}

/// Adds the rule that `req` describes under the given id: the request's field
/// and action must be valid (the field is checked first); the list comes back
/// sorted with the new rule, and the new rule alone.
pub fn create_rule_with_id(rules: Vec<MetadataRule>, req: &CreateMetadataRuleRequest, id: String)
    -> (r: Result<(Vec<MetadataRule>, MetadataRule), ApiFailure>)
    ensures
        r is Ok <==> valid_field(req.field@) && valid_action(req.action@),
        !valid_field(req.field@) ==> (r matches Err(f) && is_failure(f, ApiStatus::BadRequest, "field must be 'title' or 'scanlator_group'"@)),
        valid_field(req.field@) && !valid_action(req.action@) ==> (r matches Err(f) && is_failure(f, ApiStatus::BadRequest, "action must be 'clear', 'set', or 'replace'"@)),
        r matches Ok((list, rule)) ==> rule == rule_from_request(*req, id)
            && stable_sort_of(list@, rules@.push(rule)),
{
    validate_field(req.field.as_str())?;
    validate_action(req.action.as_str())?;
    let rule = MetadataRule {
        id,
        sort_order: req.sort_order,
        name: req.name.clone(),
        provider_name: clone_opt(&req.provider_name),
        field: req.field.clone(),
        action: req.action.clone(),
        pattern: clone_opt(&req.pattern),
        value: clone_opt(&req.value),
    };
    let mut rules = rules;
    rules.push(rule.copy());
    let sorted = sort_by_order(rules);
    Ok((sorted, rule))
}

/// Adds the rule that `req` describes under a fresh random id, as
/// `create_rule_with_id` does: the id is the text of a new random UUID.
pub fn create_rule(rules: Vec<MetadataRule>, req: &CreateMetadataRuleRequest)
    -> (r: Result<(Vec<MetadataRule>, MetadataRule), ApiFailure>)
    ensures
        r is Ok <==> valid_field(req.field@) && valid_action(req.action@),
        !valid_field(req.field@) ==> (r matches Err(f) && is_failure(f, ApiStatus::BadRequest, "field must be 'title' or 'scanlator_group'"@)),
        valid_field(req.field@) && !valid_action(req.action@) ==> (r matches Err(f) && is_failure(f, ApiStatus::BadRequest, "action must be 'clear', 'set', or 'replace'"@)),
        r matches Ok((list, rule)) ==> (exists|u: u128| rule.id@ == uuid_text(u))
            && rule == rule_from_request(*req, rule.id)
            && stable_sort_of(list@, rules@.push(rule)),
{
    let u = new_v4();
    let id = uuid_string(u);
    let r = create_rule_with_id(rules, req, id);
    proof {
        if r is Ok {
            assert(r->Ok_0.1.id@ == uuid_text(u));
        }
    }
    r
}

/// Position of the first rule with the given id.
pub open spec fn first_with_id(s: Seq<MetadataRule>, id: Seq<char>, p: int) -> bool {
    &&& 0 <= p < s.len()
    &&& s[p].id@ == id
    &&& forall|i: int| 0 <= i < p ==> s[i].id@ != id
}

/// The rule that an update makes of `old`: present fields replace, `pattern`
/// and `value` are taken from the request whether present or not.
pub open spec fn updated_rule(old: MetadataRule, req: UpdateMetadataRuleRequest) -> MetadataRule {
    MetadataRule {
        id: old.id,
        sort_order: match req.sort_order { Some(s) => s, None => old.sort_order },
        name: match req.name { Some(n) => n, None => old.name },
        provider_name: if req.provider_name is Some { req.provider_name } else { old.provider_name },
        field: match req.field { Some(f) => f, None => old.field },
        action: match req.action { Some(a) => a, None => old.action },
        pattern: req.pattern,
        value: req.value,
    }
}

fn find_rule(rules: &Vec<MetadataRule>, id: &str) -> (r: Option<usize>)
    ensures
        match r {
            Some(p) => first_with_id(rules@, id@, p as int),
            None => forall|i: int| 0 <= i < rules@.len() ==> rules@[i].id@ != id@,
        },
{
    let mut i: usize = 0;
    while i < rules.len()
        invariant
            i <= rules@.len(),
            forall|j: int| 0 <= j < i ==> rules@[j].id@ != id@,
        decreases rules.len() - i,
    {
        if str_eq(rules[i].id.as_str(), id) {
            return Some(i);
        }
        i = i + 1;
    }
    None
}

/// Changes the first rule with the given id: "metadata rule not found" when
/// there is none; a present field or action must be valid (field first). On
/// success the list comes back sorted with the changed rule in place of the
/// old one, and the changed rule alone.
pub fn update_rule(rules: Vec<MetadataRule>, id: &str, req: &UpdateMetadataRuleRequest)
    -> (r: Result<(Vec<MetadataRule>, MetadataRule), ApiFailure>)
    ensures
        (forall|i: int| 0 <= i < rules@.len() ==> rules@[i].id@ != id@) ==>
            (r matches Err(f) && is_failure(f, ApiStatus::NotFound, "metadata rule not found"@)),
        forall|p: int| first_with_id(rules@, id@, p) ==> {
            let field_ok = req.field matches Some(f) ==> valid_field(f@);
            let action_ok = req.action matches Some(a) ==> valid_action(a@);
            &&& (r is Ok <==> field_ok && action_ok)
            &&& !field_ok ==> (r matches Err(f) && is_failure(f, ApiStatus::BadRequest, "field must be 'title' or 'scanlator_group'"@))
            &&& field_ok && !action_ok ==> (r matches Err(f) && is_failure(f, ApiStatus::BadRequest, "action must be 'clear', 'set', or 'replace'"@))
            &&& r matches Ok((list, rule)) ==> rule == updated_rule(rules@[p], *req)
                && stable_sort_of(list@, rules@.update(p, rule))
        },
{
    let pos = match find_rule(&rules, id) {
        Some(p) => p,
        None => return Err(not_found("metadata rule not found")),
    };
    if let Some(field) = &req.field {
        validate_field(field.as_str())?;
    }
    if let Some(action) = &req.action {
        validate_action(action.as_str())?;
    }
    let old = &rules[pos];
    let rule = MetadataRule {
        id: old.id.clone(),
        sort_order: match req.sort_order {
            Some(s) => s,
            None => old.sort_order,
        },
        name: match &req.name {
            Some(n) => n.clone(),
            None => old.name.clone(),
        },
        provider_name: if req.provider_name.is_some() {
            clone_opt(&req.provider_name)
        } else {
            clone_opt(&old.provider_name)
        },
        field: match &req.field {
            Some(f) => f.clone(),
            None => old.field.clone(),
        },
        action: match &req.action {
            Some(a) => a.clone(),
            None => old.action.clone(),
        },
        pattern: clone_opt(&req.pattern),
        value: clone_opt(&req.value),
    };
    let mut rules = rules;
    rules.set(pos, rule.copy());
    let sorted = sort_by_order(rules);
    Ok((sorted, rule))
}

/// Holds of the rules whose id is not the given one.
pub open spec fn id_is_not(id: Seq<char>) -> spec_fn(MetadataRule) -> bool {
    |x: MetadataRule| x.id@ != id
}

/// Removes every rule with the given id, keeping the others in order;
/// "metadata rule not found" when there is none.
pub fn delete_rule(rules: Vec<MetadataRule>, id: &str) -> (r: Result<Vec<MetadataRule>, ApiFailure>)
    ensures
        (exists|i: int| 0 <= i < rules@.len() && rules@[i].id@ == id@) <==> r is Ok,
        r matches Err(f) ==> is_failure(f, ApiStatus::NotFound, "metadata rule not found"@),
        r matches Ok(list) ==> list@ == rules@.filter(id_is_not(id@)),
{
    let ghost keep = id_is_not(id@);
    let mut out: Vec<MetadataRule> = Vec::new();
    let mut i: usize = 0;
    let mut removed = false;
    let ghost all = rules@;
    let n = rules.len();
    while i < n
        invariant
            n == all.len(),
            rules@ == all,
            keep == id_is_not(id@),
            i <= n,
            out@ == all.take(i as int).filter(keep),
            removed <==> exists|j: int| 0 <= j < i && all[j].id@ == id@,
        decreases n - i,
    {
        let a = rules[i].copy();
        proof {
            assert(all.take(i + 1) =~= all.take(i as int).push(a));
            all.take(i as int).lemma_filter_push(a, keep);
        }
        let ghost prev = out@;
        if str_eq(a.id.as_str(), id) {
            removed = true;
            assert(!keep(a));
        } else {
            out.push(a);
            assert(keep(a));
            assert(out@ == prev.push(a));
        }
        assert(out@ == all.take(i + 1).filter(keep));
        i = i + 1;
    }
    assert(all.take(n as int) =~= all);
    if !removed {
        return Err(not_found("metadata rule not found"));
    }
    Ok(out)
}

proof fn lemma_filter_of_sorted(s: Seq<MetadataRule>, pred: spec_fn(MetadataRule) -> bool)
    requires
        sorted_by_order(s),
    ensures
        sorted_by_order(s.filter(pred)),
    decreases s.len(),
{
    reveal(Seq::filter);
    if s.len() > 0 {
        let d = s.drop_last();
        assert(sorted_by_order(d)) by {
            assert forall|i: int, j: int| 0 <= i < j < d.len() implies d[i].sort_order <= d[j].sort_order by {
                assert(d[i] == s[i] && d[j] == s[j]);
            }
        }
        lemma_filter_of_sorted(d, pred);
        let f = d.filter(pred);
        if pred(s.last()) {
            assert forall|i: int, j: int| 0 <= i < j < f.push(s.last()).len()
                implies f.push(s.last())[i].sort_order <= f.push(s.last())[j].sort_order by {
                if j == f.len() {
                    assert(f.contains(f[i]));
                    d.lemma_filter_contains_rev(pred, f[i]);
                    assert(d.contains(f[i]));
                    let k = choose|k: int| 0 <= k < d.len() && d[k] == f[i];
                    assert(s[k] == d[k]);
                }
            }
        }
    }
}

proof fn lemma_filters_commute(s: Seq<MetadataRule>, p: spec_fn(MetadataRule) -> bool, q: spec_fn(MetadataRule) -> bool)
    ensures
        s.filter(p).filter(q) == s.filter(q).filter(p),
    decreases s.len(),
{
    if s.len() > 0 {
        lemma_filters_commute(s.drop_last(), p, q);
        assert(s == s.drop_last().push(s.last()));
        let d = s.drop_last();
        let x = s.last();
        d.lemma_filter_push(x, p);
        d.lemma_filter_push(x, q);
        d.filter(p).lemma_filter_push(x, q);
        d.filter(q).lemma_filter_push(x, p);
    } else {
        reveal(Seq::filter);
    }
}

proof fn lemma_filter_keeps_all(s: Seq<MetadataRule>, p: spec_fn(MetadataRule) -> bool)
    requires
        forall|i: int| 0 <= i < s.len() ==> p(s[i]),
    ensures
        s.filter(p) == s,
    decreases s.len(),
{
    if s.len() > 0 {
        let d = s.drop_last();
        assert forall|i: int| 0 <= i < d.len() implies p(d[i]) by {
            assert(d[i] == s[i]);
        }
        lemma_filter_keeps_all(d, p);
        assert(s == d.push(s.last()));
        d.lemma_filter_push(s.last(), p);
    } else {
        reveal(Seq::filter);
    }
}

/// Deleting a rule just created gives back the rules as they were, sorted:
/// when the new id is not among them, removing it from the list that
/// creation returned leaves a stable sort of the earlier rules.
pub proof fn law_delete_undoes_create(rules: Seq<MetadataRule>, new_rule: MetadataRule, created: Seq<MetadataRule>)
    requires
        stable_sort_of(created, rules.push(new_rule)),
        forall|i: int| 0 <= i < rules.len() ==> rules[i].id@ != new_rule.id@,
    ensures
        stable_sort_of(created.filter(id_is_not(new_rule.id@)), rules),
{
    let keep = id_is_not(new_rule.id@);
    lemma_filter_of_sorted(created, keep);
    assert forall|k: i32| #[trigger] created.filter(keep).filter(order_is(k)) == rules.filter(order_is(k)) by {
        lemma_filters_commute(created, keep, order_is(k));
        rules.lemma_filter_push(new_rule, order_is(k));
        rules.filter(order_is(k)).lemma_filter_push(new_rule, keep);
        let rk = rules.filter(order_is(k));
        assert forall|i: int| 0 <= i < rk.len() implies keep(rk[i]) by {
            assert(rk.contains(rk[i]));
            rules.lemma_filter_contains_rev(order_is(k), rk[i]);
            assert(rules.contains(rk[i]));
        }
        lemma_filter_keeps_all(rk, keep);
    }
}

} // verus!
