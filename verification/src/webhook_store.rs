//! Stored webhook endpoints: creating, updating, listing and deleting them,
//! and choosing the endpoints that a task event is delivered to.

use vstd::prelude::*;
use crate::errors::{bad_request, is_failure, not_found, ApiFailure, ApiStatus};
use crate::ids::{new_v4, uuid_string, uuid_text};
use crate::manga::{parse_uuid, uuid_parsed};
use crate::text::{clone_opt, opt_view, str_eq, trim, trim_seq, views_of};
use crate::webhook::{
    clone_strings, normalise_distinct, normalised_member, strictly_sorted, validate_request,
    webhook_rejection, NewWebhookEndpoint, WebhookEndpointRequest,
};

verus! {

/// A stored webhook endpoint; times are Unix seconds.
#[derive(Debug)]
pub struct WebhookEndpoint {
    pub id: u128,
    pub target_url: String,
    pub enabled: bool,
    pub task_types: Vec<String>,
    pub task_statuses: Vec<String>,
    pub body_template: Option<String>,
    pub created_at: i64,
    pub updated_at: i64,
}

/// Where an event is delivered, and with which body template.
#[derive(Debug)]
pub struct WebhookDeliveryTarget {
    pub id: u128,
    pub target_url: String,
    pub body_template: Option<String>,
}

/// An endpoint as specifications see it.
pub struct EndpointView {
    pub id: u128,
    pub target_url: Seq<char>,
    pub enabled: bool,
    pub task_types: Seq<Seq<char>>,
    pub task_statuses: Seq<Seq<char>>,
    pub body_template: Option<Seq<char>>,
    pub created_at: i64,
    pub updated_at: i64,
}

/// The view of an endpoint.
pub open spec fn endpoint_view(e: WebhookEndpoint) -> EndpointView {
    EndpointView {
        id: e.id,
        target_url: e.target_url@,
        enabled: e.enabled,
        task_types: views_of(e.task_types@),
        task_statuses: views_of(e.task_statuses@),
        body_template: opt_view(e.body_template),
        created_at: e.created_at,
        updated_at: e.updated_at,
    }
}

/// The view of a delivery target: id, URL and template.
pub open spec fn target_view(t: WebhookDeliveryTarget) -> (u128, Seq<char>, Option<Seq<char>>) {
    (t.id, t.target_url@, opt_view(t.body_template))
}

/// A stored template: trimmed, and dropped when nothing is left.
pub open spec fn stored_template(t: Option<String>) -> Option<Seq<char>> {
    match t {
        Some(s) => if trim_seq(s@).len() > 0 {
            Some(trim_seq(s@))
        } else {
            None
        },
        None => None,
    }
}

/// `out` holds the trimmed, non-empty `values`, sorted and without duplicates.
pub open spec fn normalised(out: Seq<Seq<char>>, values: Seq<Seq<char>>) -> bool {
    &&& strictly_sorted(out)
    &&& forall|x: Seq<char>| #![trigger normalised_member(values, x)] normalised_member(values, x) <==> out.contains(x)
}

/// The endpoint that `input` makes, with the given id and times.
pub open spec fn stored_from(v: EndpointView, input: NewWebhookEndpoint, id: u128, created_at: i64, updated_at: i64) -> bool {
    &&& v.id == id
    &&& v.target_url == trim_seq(input.target_url@)
    &&& v.enabled == input.enabled
    &&& normalised(v.task_types, views_of(input.task_types@))
    &&& normalised(v.task_statuses, views_of(input.task_statuses@))
    &&& v.body_template == stored_template(input.body_template)
    &&& v.created_at == created_at
    &&& v.updated_at == updated_at
}

/// Whether an endpoint receives events with the given task type and status.
pub open spec fn receives(v: EndpointView, task_type: Seq<char>, task_status: Seq<char>) -> bool {
    v.enabled && v.task_types.contains(task_type) && v.task_statuses.contains(task_status)
}

/// The delivery target of an endpoint.
pub open spec fn target_of(v: EndpointView) -> (u128, Seq<char>, Option<Seq<char>>) {
    (v.id, v.target_url, v.body_template)
}

/// An endpoint as a listing reports it. Filters are stored as every pair of
/// a type and a status, so a listing reads no type when there is no status
/// and no status when there is no type.
pub open spec fn listed(v: EndpointView) -> EndpointView {
    if v.task_types.len() == 0 || v.task_statuses.len() == 0 {
        EndpointView { task_types: Seq::empty(), task_statuses: Seq::empty(), ..v }
    } else {
        v
    }
}

/// No two endpoints share an id.
pub open spec fn ids_unique(s: Seq<EndpointView>) -> bool {
    forall|i: int, j: int| 0 <= i < j < s.len() ==> s[i].id != s[j].id
}

/// The endpoints, oldest first.
pub struct WebhookStore {
    endpoints: Vec<WebhookEndpoint>,
}

impl WebhookStore {
    /// The endpoints as specifications see them, oldest first.
    pub closed spec fn view(&self) -> Seq<EndpointView> {
        self.endpoints@.map_values(|e: WebhookEndpoint| endpoint_view(e))
    }

    /// Well-formed: no two endpoints share an id.
    pub open spec fn wf(&self) -> bool {
        ids_unique(self.view())
    }

    /// No endpoints.
    pub fn new() -> (s: Self)
        ensures
            s.view() == Seq::<EndpointView>::empty(),
            s.wf(),
    {
        let s = WebhookStore { endpoints: Vec::new() };
        proof {
            assert(s.view() =~= Seq::<EndpointView>::empty());
        }
        s
    }

    /// Position of the endpoint with `id`.
    fn find(&self, id: u128) -> (r: Option<usize>)
        ensures
            match r {
                Some(p) => p < self.view().len() && self.view()[p as int].id == id,
                None => forall|i: int| 0 <= i < self.view().len() ==> self.view()[i].id != id,
            },
    {
        let mut i: usize = 0;
        while i < self.endpoints.len()
            invariant
                i <= self.endpoints.len(),
                forall|j: int| 0 <= j < i ==> self.view()[j].id != id,
            decreases self.endpoints.len() - i,
        {
            if self.endpoints[i].id == id {
                return Some(i);
            }
            i += 1;
        }
        None
    }

    /// Stores a new endpoint made from `input` with the given id, created and
    /// updated at `now`; `None`, and nothing stored, when the id is taken.
    pub fn create_with_id(&mut self, input: &NewWebhookEndpoint, id: u128, now: i64) -> (r: Option<WebhookEndpoint>)
        requires
            old(self).wf(),
        ensures
            final(self).wf(),
            (exists|i: int| 0 <= i < old(self).view().len() && old(self).view()[i].id == id) ==> r is None && final(self).view()
                == old(self).view(),
            (forall|i: int| 0 <= i < old(self).view().len() ==> old(self).view()[i].id != id) ==> (r matches Some(e)
                && stored_from(endpoint_view(e), *input, id, now, now) && final(self).view() == old(self).view().push(endpoint_view(e))),
    {
        if self.find(id).is_some() {
            return None;
        }
        let e = make_endpoint(input, id, now, now);
        let copy = copy_endpoint(&e);
        let ghost before = self.view();
        self.endpoints.push(copy);
        proof {
            assert(self.view() =~= before.push(endpoint_view(e)));
        }
        Some(e)
    }

    /// Stores a new endpoint made from `input` under a fresh random id; when a
    /// stored endpoint already has the id drawn, nothing is stored and that id
    /// is the error.
    pub fn create(&mut self, input: &NewWebhookEndpoint, now: i64) -> (r: Result<WebhookEndpoint, u128>)
        requires
            old(self).wf(),
        ensures
            final(self).wf(),
            match r {
                Ok(e) => (forall|i: int| 0 <= i < old(self).view().len() ==> old(self).view()[i].id != e.id)
                    && stored_from(endpoint_view(e), *input, e.id, now, now)
                    && final(self).view() == old(self).view().push(endpoint_view(e)),
                Err(id) => (exists|i: int| 0 <= i < old(self).view().len() && old(self).view()[i].id == id)
                    && final(self).view() == old(self).view(),
            },
    {
        let id = new_v4();
        match self.create_with_id(input, id, now) {
            Some(e) => Ok(e),
            None => Err(id),
        }
    }

    /// Replaces the endpoint with `id` by one made from `input`, keeping its
    /// creation time; `None`, and nothing changed, when there is none.
    pub fn update(&mut self, id: u128, input: &NewWebhookEndpoint, now: i64) -> (r: Option<WebhookEndpoint>)
        requires
            old(self).wf(),
        ensures
            final(self).wf(),
            match r {
                Some(e) => exists|p: int| 0 <= p < old(self).view().len() && old(self).view()[p].id == id
                    && stored_from(endpoint_view(e), *input, id, old(self).view()[p].created_at, now)
                    && final(self).view() == old(self).view().update(p, endpoint_view(e)),
                None => final(self).view() == old(self).view() && forall|i: int| 0 <= i < old(self).view().len() ==> old(self).view()[i].id != id,
            },
    {
        match self.find(id) {
            None => None,
            Some(p) => {
                let created_at = self.endpoints[p].created_at;
                let e = make_endpoint(input, id, created_at, now);
                let copy = copy_endpoint(&e);
                let ghost before = self.view();
                self.endpoints.set(p, copy);
                proof {
                    assert(self.view() =~= before.update(p as int, endpoint_view(e)));
                }
                Some(e)
            },
        }
    }

    /// Removes the endpoint with `id`; whether there was one.
    pub fn delete(&mut self, id: u128) -> (r: bool)
        requires
            old(self).wf(),
        ensures
            final(self).wf(),
            r == exists|i: int| 0 <= i < old(self).view().len() && old(self).view()[i].id == id,
            final(self).view() == old(self).view().filter(|v: EndpointView| v.id != id),
    {
        let ghost before = self.view();
        match self.find(id) {
            None => {
                proof {
                    lemma_filter_all(before, id);
                }
                false
            },
            Some(p) => {
                self.endpoints.remove(p);
                proof {
                    lemma_filter_one(before, id, p as int);
                    assert(self.view() =~= before.remove(p as int));
                }
                true
            },
        }
    }

    /// Every endpoint, oldest first, as a listing reports it.
    pub fn list(&self) -> (r: Vec<WebhookEndpoint>)
        ensures
            r@.map_values(|e: WebhookEndpoint| endpoint_view(e)) == self.view().map_values(|v: EndpointView| listed(v)),
    {
        let mut r: Vec<WebhookEndpoint> = Vec::new();
        let mut i: usize = 0;
        while i < self.endpoints.len()
            invariant
                i <= self.endpoints.len(),
                r@.map_values(|e: WebhookEndpoint| endpoint_view(e)) == self.view().take(i as int).map_values(
                    |v: EndpointView| listed(v),
                ),
            decreases self.endpoints.len() - i,
        {
            let e = &self.endpoints[i];
            let mut c = copy_endpoint(e);
            if e.task_types.len() == 0 || e.task_statuses.len() == 0 {
                c.task_types = Vec::new();
                c.task_statuses = Vec::new();
            }
            let ghost before = r@;
            r.push(c);
            proof {
                assert(views_of(Seq::<String>::empty()) =~= Seq::<Seq<char>>::empty());
                assert(endpoint_view(c) == listed(self.view()[i as int]));
                let lhs = r@.map_values(|e: WebhookEndpoint| endpoint_view(e));
                let rhs = self.view().take(i + 1).map_values(|v: EndpointView| listed(v));
                let pre = before.map_values(|e: WebhookEndpoint| endpoint_view(e));
                let prv = self.view().take(i as int).map_values(|v: EndpointView| listed(v));
                assert(pre == prv);
                assert(self.view().len() == self.endpoints.len());
                assert(prv.len() == i);
                assert(pre.len() == before.len());
                assert(r@.len() == before.len() + 1);
                assert(lhs.len() == r@.len());
                assert(rhs.len() == i + 1);
                assert(lhs.len() == rhs.len());
                assert forall|j: int| 0 <= j < lhs.len() implies lhs[j] == rhs[j] by {
                    if j < i {
                        assert(r@[j] == before[j]);
                        assert(pre[j] == prv[j]);
                        assert(self.view().take(i + 1)[j] == self.view().take(i as int)[j]);
                    } else {
                        assert(r@[j] == c);
                    }
                }
                assert(lhs =~= rhs);
            }
            i += 1;
        }
        proof {
            assert(self.view().take(self.endpoints.len() as int) =~= self.view());
        }
        r
    }

    /// The endpoints that receive an event with the given task type and status:
    /// enabled ones whose filter holds both, oldest first.
    pub fn matching_targets(&self, task_type: &str, task_status: &str) -> (r: Vec<WebhookDeliveryTarget>)
        ensures
            r@.map_values(|t: WebhookDeliveryTarget| target_view(t)) == self.view().filter(
                |v: EndpointView| receives(v, task_type@, task_status@),
            ).map_values(|v: EndpointView| target_of(v)),
    {
        let ghost pred = |v: EndpointView| receives(v, task_type@, task_status@);
        let mut r: Vec<WebhookDeliveryTarget> = Vec::new();
        let mut i: usize = 0;
        while i < self.endpoints.len()
            invariant
                i <= self.endpoints.len(),
                pred == (|v: EndpointView| receives(v, task_type@, task_status@)),
                r@.map_values(|t: WebhookDeliveryTarget| target_view(t)) == self.view().take(i as int).filter(pred).map_values(
                    |v: EndpointView| target_of(v),
                ),
            decreases self.endpoints.len() - i,
        {
            let e = &self.endpoints[i];
            let ghost v = self.view()[i as int];
            proof {
                assert(self.view().take(i + 1).drop_last() =~= self.view().take(i as int));
                reveal(Seq::filter);
            }
            if e.enabled && list_contains(&e.task_types, task_type) && list_contains(&e.task_statuses, task_status) {
                let t = WebhookDeliveryTarget { id: e.id, target_url: e.target_url.clone(), body_template: clone_opt(&e.body_template) };
                let ghost before = r@;
                r.push(t);
                proof {
                    let prev = self.view().take(i as int).filter(pred);
                    assert(pred(v));
                    assert(self.view().take(i + 1).last() == v);
                    assert(self.view().take(i + 1).filter(pred) == prev.push(v));
                    assert(target_view(t) == target_of(v));
                    let lhs = r@.map_values(|t: WebhookDeliveryTarget| target_view(t));
                    let rhs = prev.push(v).map_values(|v: EndpointView| target_of(v));
                    let pre = before.map_values(|t: WebhookDeliveryTarget| target_view(t));
                    let prv = prev.map_values(|v: EndpointView| target_of(v));
                    assert(pre == prv);
                    assert(prv.len() == prev.len());
                    assert(pre.len() == before.len());
                    assert(r@.len() == before.len() + 1);
                    assert(lhs.len() == r@.len());
                    assert(rhs.len() == prev.len() + 1);
                    assert(lhs.len() == rhs.len());
                    assert forall|j: int| 0 <= j < lhs.len() implies lhs[j] == rhs[j] by {
                        if j < before.len() {
                            assert(r@[j] == before[j]);
                            assert(pre[j] == prv[j]);
                        } else {
                            assert(r@[j] == t);
                        }
                    }
                    assert(lhs =~= rhs);
                }
            } else {
                proof {
                    assert(self.view().take(i + 1).filter(pred) =~= self.view().take(i as int).filter(pred));
                }
            }
            i += 1;
        }
        proof {
            assert(self.view().take(self.endpoints.len() as int) =~= self.view());
        }
        r
    }
}

proof fn lemma_filter_all(s: Seq<EndpointView>, id: u128)
    requires
        forall|i: int| 0 <= i < s.len() ==> s[i].id != id,
    ensures
        s.filter(|v: EndpointView| v.id != id) == s,
    decreases s.len(),
{
    reveal(Seq::filter);
    if s.len() > 0 {
        lemma_filter_all(s.drop_last(), id);
        assert(s.drop_last().push(s.last()) =~= s);
    }
}

proof fn lemma_filter_one(s: Seq<EndpointView>, id: u128, p: int)
    requires
        0 <= p < s.len(),
        s[p].id == id,
        ids_unique(s),
    ensures
        s.filter(|v: EndpointView| v.id != id) == s.remove(p),
    decreases s.len(),
{
    reveal(Seq::filter);
    let init = s.drop_last();
    if p == s.len() - 1 {
        assert forall|i: int| 0 <= i < init.len() implies init[i].id != id by {
            assert(init[i] == s[i]);
        }
        lemma_filter_all(init, id);
        assert(s.remove(p) =~= init);
    } else {
        assert forall|i: int, j: int| 0 <= i < j < init.len() implies init[i].id != init[j].id by {
            assert(init[i] == s[i] && init[j] == s[j]);
        }
        lemma_filter_one(init, id, p);
        assert(s.last().id != id);
        assert(s.remove(p) =~= init.remove(p).push(s.last()));
    }
}

/// Whether some string of `v` equals `s`.
fn list_contains(v: &Vec<String>, s: &str) -> (r: bool)
    ensures
        r == views_of(v@).contains(s@),
{
    let mut i: usize = 0;
    while i < v.len()
        invariant
            i <= v.len(),
            forall|j: int| 0 <= j < i ==> v@[j]@ != s@,
        decreases v.len() - i,
    {
        if str_eq(v[i].as_str(), s) {
            proof {
                assert(views_of(v@)[i as int] == s@);
            }
            return true;
        }
        i += 1;
    }
    proof {
        if views_of(v@).contains(s@) {
            let j = choose|j: int| 0 <= j < views_of(v@).len() && views_of(v@)[j] == s@;
            assert(v@[j]@ == s@);
        }
    }
    false
}

/// A copy of an endpoint.
fn copy_endpoint(e: &WebhookEndpoint) -> (r: WebhookEndpoint)
    ensures
        endpoint_view(r) == endpoint_view(*e),
{
    WebhookEndpoint {
        id: e.id,
        target_url: e.target_url.clone(),
        enabled: e.enabled,
        task_types: clone_strings(&e.task_types),
        task_statuses: clone_strings(&e.task_statuses),
        body_template: clone_opt(&e.body_template),
        created_at: e.created_at,
        updated_at: e.updated_at,
    }
}

/// The endpoint that `input` makes: URL and template trimmed (an empty
/// template dropped), filters normalised.
fn make_endpoint(input: &NewWebhookEndpoint, id: u128, created_at: i64, updated_at: i64) -> (e: WebhookEndpoint)
    ensures
        stored_from(endpoint_view(e), *input, id, created_at, updated_at),
{
    let body_template = match &input.body_template {
        Some(t) => {
            let t = trim(t.as_str());
            if t.as_str().unicode_len() == 0 {
                None
            } else {
                Some(t)
            }
        },
        None => None,
    };
    WebhookEndpoint {
        id,
        target_url: trim(input.target_url.as_str()),
        enabled: input.enabled,
        task_types: normalise_distinct(input.task_types.as_slice()),
        task_statuses: normalise_distinct(input.task_statuses.as_slice()),
        body_template,
        created_at,
        updated_at,
    }
}

/// An endpoint as the API reports it.
#[derive(Debug)]
pub struct WebhookEndpointResponse {
    /// The id, as hyphenated lowercase UUID text.
    pub id: String,
    pub target_url: String,
    pub enabled: bool,
    pub task_types: Vec<String>,
    pub task_statuses: Vec<String>,
    pub body_template: Option<String>,
    pub created_at: i64,
    pub updated_at: i64,
}

/// The API form of an endpoint.
pub fn to_response(e: WebhookEndpoint) -> (r: WebhookEndpointResponse)
    ensures
        r.id@ == uuid_text(e.id),
        r.target_url == e.target_url,
        r.enabled == e.enabled,
        r.task_types == e.task_types,
        r.task_statuses == e.task_statuses,
        r.body_template == e.body_template,
        r.created_at == e.created_at,
        r.updated_at == e.updated_at,
{
    WebhookEndpointResponse {
        id: uuid_string(e.id),
        target_url: e.target_url,
        enabled: e.enabled,
        task_types: e.task_types,
        task_statuses: e.task_statuses,
        body_template: e.body_template,
        created_at: e.created_at,
        updated_at: e.updated_at,
    }
}

/// Every endpoint, oldest first, in API form.
pub fn list_webhooks(store: &WebhookStore) -> (r: Vec<WebhookEndpointResponse>)
    ensures
        r.len() == store.view().len(),
        forall|i: int| 0 <= i < r.len() ==> ({
            let v = listed(store.view()[i]);
            &&& (#[trigger] r[i]).id@ == uuid_text(v.id)
            &&& r[i].target_url@ == v.target_url
            &&& r[i].enabled == v.enabled
            &&& views_of(r[i].task_types@) == v.task_types
            &&& views_of(r[i].task_statuses@) == v.task_statuses
            &&& opt_view(r[i].body_template) == v.body_template
            &&& r[i].created_at == v.created_at
            &&& r[i].updated_at == v.updated_at
        }),
{
    let mut hooks = store.list();
    let ghost hv = hooks@;
    let mut r: Vec<WebhookEndpointResponse> = Vec::new();
    let ghost lv = store.view().map_values(|v: EndpointView| listed(v));
    proof {
        assert(hv.map_values(|e: WebhookEndpoint| endpoint_view(e)).len() == lv.len());
    }
    let n = hooks.len();
    let mut i: usize = 0;
    while hooks.len() > 0
        invariant
            i + hooks.len() == n,
            n == hv.len(),
            hooks@ == hv.skip(i as int),
            hv.map_values(|e: WebhookEndpoint| endpoint_view(e)) == lv,
            lv == store.view().map_values(|v: EndpointView| listed(v)),
            r.len() == i,
            forall|j: int| 0 <= j < i ==> ({
                let v = lv[j];
                &&& (#[trigger] r[j]).id@ == uuid_text(v.id)
                &&& r[j].target_url@ == v.target_url
                &&& r[j].enabled == v.enabled
                &&& views_of(r[j].task_types@) == v.task_types
                &&& views_of(r[j].task_statuses@) == v.task_statuses
                &&& opt_view(r[j].body_template) == v.body_template
                &&& r[j].created_at == v.created_at
                &&& r[j].updated_at == v.updated_at
            }),
        decreases hooks.len(),
    {
        let e = hooks.remove(0);
        proof {
            assert(e == hv[i as int]);
            assert(hooks@ =~= hv.skip(i + 1));
            assert(endpoint_view(e) == lv[i as int]);
        }
        r.push(to_response(e));
        i += 1;
    }
    r
}

/// Creates an endpoint from a request, once it passes validation.
pub fn create_webhook(store: &mut WebhookStore, body: &WebhookEndpointRequest, now: i64) -> (r: Result<WebhookEndpointResponse, ApiFailure>)
    requires
        old(store).wf(),
    ensures
        final(store).wf(),
        match webhook_rejection(*body) {
            Some(msg) => (r matches Err(f) && is_failure(f, ApiStatus::BadRequest, msg)) && final(store).view() == old(store).view(),
            None => match r {
                Ok(resp) => final(store).view().len() == old(store).view().len() + 1
                    && final(store).view().take(old(store).view().len() as int) == old(store).view()
                    && resp.id@ == uuid_text(final(store).view().last().id),
                Err(f) => is_failure(f, ApiStatus::InternalServerError, "webhook id already taken"@)
                    && final(store).view() == old(store).view(),
            },
        },
{
    let hook = match validate_request(body) {
        Ok(h) => h,
        Err(f) => return Err(f),
    };
    match store.create(&hook, now) {
        Ok(e) => {
            proof {
                lemma_push_take(old(store).view(), endpoint_view(e));
            }
            Ok(to_response(e))
        },
        Err(_) => Err(crate::errors::internal("webhook id already taken")),
    }
}

proof fn lemma_push_take(s: Seq<EndpointView>, v: EndpointView)
    ensures
        s.push(v).take(s.len() as int) == s,
        s.push(v).last() == v,
{
    assert(s.push(v).take(s.len() as int) =~= s);
}

/// Replaces the endpoint with id `id` from a request.
pub fn update_webhook(store: &mut WebhookStore, id: &str, body: &WebhookEndpointRequest, now: i64) -> (r: Result<WebhookEndpointResponse, ApiFailure>)
    requires
        old(store).wf(),
    ensures
        final(store).wf(),
        match uuid_parsed(id@) {
            None => (r matches Err(f) && is_failure(f, ApiStatus::BadRequest, "invalid UUID"@)) && final(store).view() == old(store).view(),
            Some(u) => match webhook_rejection(*body) {
                Some(msg) => (r matches Err(f) && is_failure(f, ApiStatus::BadRequest, msg)) && final(store).view() == old(store).view(),
                None => match r {
                    Ok(resp) => resp.id@ == uuid_text(u) && exists|p: int, v: EndpointView| 0 <= p < old(store).view().len()
                        && old(store).view()[p].id == u && v.id == u && v.created_at == old(store).view()[p].created_at
                        && v.updated_at == now && final(store).view() == old(store).view().update(p, v),
                    Err(f) => is_failure(f, ApiStatus::NotFound, "webhook not found"@) && final(store).view() == old(store).view()
                        && forall|i: int| 0 <= i < old(store).view().len() ==> old(store).view()[i].id != u,
                },
            },
        },
{
    let hook_id = match parse_uuid(id) {
        Some(u) => u,
        None => return Err(bad_request("invalid UUID")),
    };
    let hook = match validate_request(body) {
        Ok(h) => h,
        Err(f) => return Err(f),
    };
    match store.update(hook_id, &hook, now) {
        Some(e) => Ok(to_response(e)),
        None => Err(not_found("webhook not found")),
    }
}

/// Deletes the endpoint with id `id`.
pub fn delete_webhook(store: &mut WebhookStore, id: &str) -> (r: Result<(), ApiFailure>)
    requires
        old(store).wf(),
    ensures
        final(store).wf(),
        uuid_parsed(id@) is None ==> (r matches Err(f) && is_failure(f, ApiStatus::BadRequest, "invalid UUID"@)) && final(store).view() == old(store).view(),
        uuid_parsed(id@) matches Some(u) ==> final(store).view() == old(store).view().filter(|v: EndpointView| v.id != u) && match r {
            Ok(()) => exists|i: int| 0 <= i < old(store).view().len() && old(store).view()[i].id == u,
            Err(f) => is_failure(f, ApiStatus::NotFound, "webhook not found"@)
                && forall|i: int| 0 <= i < old(store).view().len() ==> old(store).view()[i].id != u,
        },
{
    let hook_id = match parse_uuid(id) {
        Some(u) => u,
        None => return Err(bad_request("invalid UUID")),
    };
    if store.delete(hook_id) {
        Ok(())
    } else {
        Err(not_found("webhook not found"))
    }
}

/// The endpoints left after deleting `id`.
pub open spec fn without_id(s: Seq<EndpointView>, id: u128) -> Seq<EndpointView> {
    s.filter(|v: EndpointView| v.id != id)
}

/// The endpoints that an event with the given task type and status is delivered to.
pub open spec fn delivered_to(s: Seq<EndpointView>, task_type: Seq<char>, task_status: Seq<char>) -> Seq<EndpointView> {
    s.filter(|v: EndpointView| receives(v, task_type, task_status))
}

/// Once an endpoint is deleted, no event is delivered to its id.
pub proof fn law_deleted_endpoint_receives_nothing(s: Seq<EndpointView>, id: u128, task_type: Seq<char>, task_status: Seq<char>)
    ensures
        forall|i: int| 0 <= i < delivered_to(without_id(s, id), task_type, task_status).len()
            ==> (#[trigger] delivered_to(without_id(s, id), task_type, task_status)[i]).id != id,
{
    broadcast use vstd::seq_lib::group_filter_ensures;
    let kept = without_id(s, id);
    let hit = delivered_to(kept, task_type, task_status);
    assert forall|i: int| 0 <= i < hit.len() implies (#[trigger] hit[i]).id != id by {
        assert(hit.contains(hit[i]));
        kept.lemma_filter_contains_rev(|v: EndpointView| receives(v, task_type, task_status), hit[i]);
        let j = choose|j: int| 0 <= j < kept.len() && kept[j] == hit[i];
        s.lemma_filter_pred(|v: EndpointView| v.id != id, j);
    }
}

} // verus!
