//! Webhook endpoints: request validation, normalisation of event filters, and
//! rendering of body templates.

use vstd::prelude::*;
use crate::errors::{bad_request, is_failure, ApiFailure, ApiStatus};
use crate::text::{
    digit_char,
    chars_of, contains_spec, i64_to_string, int_digits, nat_digits, is_ws, lemma_seq_lt_transitive, lemma_seq_lt_trichotomy, replace_all,
    replace_spec, seq_lt, starts_with, starts_with_spec, str_eq, str_lt, string_of, text_or_empty, trim,
    trim_chars, trim_seq, views_of,
};

verus! {

/// Body of a request that creates or updates a webhook endpoint.
#[derive(Debug)]
pub struct WebhookEndpointRequest {
    pub target_url: String,
    pub enabled: Option<bool>,
    pub task_types: Vec<String>,
    pub task_statuses: Vec<String>,
    pub body_template: Option<String>,
}

/// A validated webhook endpoint, ready to be stored.
#[derive(Debug)]
pub struct NewWebhookEndpoint {
    pub target_url: String,
    pub enabled: bool,
    pub task_types: Vec<String>,
    pub task_statuses: Vec<String>,
    pub body_template: Option<String>,
}

/// Task type names that a webhook may subscribe to.
pub open spec fn valid_task_type(s: Seq<char>) -> bool {
    ||| s == "BuildFullChapterList"@
    ||| s == "RefreshMetadata"@
    ||| s == "CheckNewChapter"@
    ||| s == "DownloadChapter"@
    ||| s == "ScanDisk"@
    ||| s == "OptimiseChapter"@
    ||| s == "Backup"@
}

/// Task status names that a webhook may subscribe to.
pub open spec fn valid_task_status(s: Seq<char>) -> bool {
    ||| s == "Pending"@
    ||| s == "Running"@
    ||| s == "Completed"@
    ||| s == "Failed"@
    ||| s == "Cancelled"@
}

/// Why a webhook request is refused, checked in this order; `None` when it is valid.
pub open spec fn webhook_rejection(body: WebhookEndpointRequest) -> Option<Seq<char>> {
    let url = trim_seq(body.target_url@);
    if url.len() == 0 {
        Some("target_url must not be empty"@)
    } else if !(starts_with_spec(url, "http://"@) || starts_with_spec(url, "https://"@)) {
        Some("target_url must start with http:// or https://"@)
    } else if body.task_types@.len() == 0 {
        Some("at least one task_type is required"@)
    } else if body.task_statuses@.len() == 0 {
        Some("at least one task_status is required"@)
    } else if exists|i: int| 0 <= i < body.task_types@.len() && !valid_task_type(#[trigger] body.task_types@[i]@) {
        Some("one or more task_types are invalid"@)
    } else if exists|i: int| 0 <= i < body.task_statuses@.len() && !valid_task_status(#[trigger] body.task_statuses@[i]@) {
        Some("one or more task_statuses are invalid"@)
    } else {
        None
    }
}

fn is_valid_task_type(s: &str) -> (r: bool)
    ensures
        r == valid_task_type(s@),
{
    str_eq(s, "BuildFullChapterList") || str_eq(s, "RefreshMetadata") || str_eq(s, "CheckNewChapter")
        || str_eq(s, "DownloadChapter") || str_eq(s, "ScanDisk") || str_eq(s, "OptimiseChapter")
        || str_eq(s, "Backup")
}

fn is_valid_task_status(s: &str) -> (r: bool)
    ensures
        r == valid_task_status(s@),
{
    str_eq(s, "Pending") || str_eq(s, "Running") || str_eq(s, "Completed") || str_eq(s, "Failed")
        || str_eq(s, "Cancelled")
}

/// A copy of a list of strings.
pub fn clone_strings(v: &Vec<String>) -> (r: Vec<String>)
    ensures
        r@ == v@,
{
    let mut r: Vec<String> = Vec::new();
    let mut i: usize = 0;
    while i < v.len()
        invariant
            i <= v@.len(),
            r@ == v@.take(i as int),
        decreases v.len() - i,
    {
        r.push(v[i].clone());
        i = i + 1;
        assert(r@ =~= v@.take(i as int));
    }
    assert(v@.take(v@.len() as int) =~= v@);
    r
}

fn error(msg: &str) -> (e: ApiFailure)
    ensures
        is_failure(e, ApiStatus::BadRequest, msg@),
{
    bad_request(msg)
}

/// Checks a webhook request. The target URL is trimmed; every listed task type and
/// status must be known; an endpoint is enabled unless the request says otherwise.
pub fn validate_request(body: &WebhookEndpointRequest) -> (r: Result<NewWebhookEndpoint, ApiFailure>)
    ensures
        match webhook_rejection(*body) {
            Some(msg) => r matches Err(f) && is_failure(f, ApiStatus::BadRequest, msg),
            None => r is Ok && {
                let n = r->Ok_0;
                &&& n.target_url@ == trim_seq(body.target_url@)
                &&& n.enabled == match body.enabled { Some(b) => b, None => true }
                &&& n.task_types@ == body.task_types@
                &&& n.task_statuses@ == body.task_statuses@
                &&& n.body_template == body.body_template
            },
        },
{
    let target_url = trim(body.target_url.as_str());
    if target_url.as_str().unicode_len() == 0 {
        return Err(error("target_url must not be empty"));
    }
    if !(starts_with(target_url.as_str(), "http://") || starts_with(target_url.as_str(), "https://")) {
        return Err(error("target_url must start with http:// or https://"));
    }
    if body.task_types.len() == 0 {
        return Err(error("at least one task_type is required"));
    }
    if body.task_statuses.len() == 0 {
        return Err(error("at least one task_status is required"));
    }
    let mut i: usize = 0;
    while i < body.task_types.len()
        invariant
            i <= body.task_types@.len(),
            target_url@ == trim_seq(body.target_url@),
            target_url@.len() > 0,
            starts_with_spec(target_url@, "http://"@) || starts_with_spec(target_url@, "https://"@),
            body.task_types@.len() > 0,
            body.task_statuses@.len() > 0,
            forall|k: int| 0 <= k < i ==> valid_task_type(#[trigger] body.task_types@[k]@),
        decreases body.task_types.len() - i,
    {
        if !is_valid_task_type(body.task_types[i].as_str()) {
            assert(!valid_task_type(body.task_types@[i as int]@));
            return Err(error("one or more task_types are invalid"));
        }
        i = i + 1;
    }
    let mut j: usize = 0;
    while j < body.task_statuses.len()
        invariant
            j <= body.task_statuses@.len(),
            target_url@ == trim_seq(body.target_url@),
            target_url@.len() > 0,
            starts_with_spec(target_url@, "http://"@) || starts_with_spec(target_url@, "https://"@),
            body.task_types@.len() > 0,
            body.task_statuses@.len() > 0,
            forall|k: int| 0 <= k < body.task_types@.len() ==> valid_task_type(#[trigger] body.task_types@[k]@),
            forall|k: int| 0 <= k < j ==> valid_task_status(#[trigger] body.task_statuses@[k]@),
        decreases body.task_statuses.len() - j,
    {
        if !is_valid_task_status(body.task_statuses[j].as_str()) {
            assert(!valid_task_status(body.task_statuses@[j as int]@));
            return Err(error("one or more task_statuses are invalid"));
        }
        j = j + 1;
    }
    let enabled = match body.enabled {
        Some(b) => b,
        None => true,
    };
    let body_template = match &body.body_template {
        Some(t) => Some(t.clone()),
        None => None,
    };
    Ok(NewWebhookEndpoint {
        target_url,
        enabled,
        task_types: clone_strings(&body.task_types),
        task_statuses: clone_strings(&body.task_statuses),
        body_template,
    })
}

// ---------------------------------------------------------------------------
// Filter normalisation
// ---------------------------------------------------------------------------

/// Strictly increasing in `str` order, hence free of duplicates.
pub open spec fn strictly_sorted(s: Seq<Seq<char>>) -> bool {
    forall|i: int, j: int| 0 <= i < j < s.len() ==> seq_lt(#[trigger] s[i], #[trigger] s[j])
}

/// The trimmed, non-empty values.
pub open spec fn normalised_member(values: Seq<Seq<char>>, x: Seq<char>) -> bool {
    x.len() > 0 && exists|i: int| 0 <= i < values.len() && trim_seq(#[trigger] values[i]) == x
}

/// Trims every value, drops empty ones, sorts and removes duplicates.
pub fn normalise_distinct(values: &[String]) -> (r: Vec<String>)
    ensures
        strictly_sorted(views_of(r@)),
        forall|x: Seq<char>| #![trigger normalised_member(views_of(values@), x)]
            normalised_member(views_of(values@), x) <==> views_of(r@).contains(x),
{
    let ghost vv = views_of(values@);
    let mut out: Vec<Vec<char>> = Vec::new();
    let mut i: usize = 0;
    while i < values.len()
        invariant
            i <= values@.len(),
            vv == views_of(values@),
            strictly_sorted(out@.map_values(|v: Vec<char>| v@)),
            forall|x: Seq<char>| #![trigger normalised_member(vv.take(i as int), x)]
                normalised_member(vv.take(i as int), x) <==> out@.map_values(|v: Vec<char>| v@).contains(x),
        decreases values.len() - i,
    {
        let cs = chars_of(values[i].as_str());
        let t = trim_chars(cs.as_slice());
        let ghost ov = out@.map_values(|v: Vec<char>| v@);
        let ghost tv = t@;
        assert(vv.take(i + 1) =~= vv.take(i as int).push(vv[i as int]));
        assert(vv[i as int] == values@[i as int]@);
        if t.len() > 0 {
            // find the insertion point
            let mut p: usize = 0;
            while p < out.len() && str_lt(out[p].as_slice(), t.as_slice())
                invariant
                    p <= out@.len(),
                    tv == t@,
                    ov == out@.map_values(|v: Vec<char>| v@),
                    forall|k: int| 0 <= k < p ==> seq_lt(#[trigger] ov[k], tv),
                decreases out.len() - p,
            {
                assert(ov[p as int] == out@[p as int]@);
                p = p + 1;
            }
            let dup = p < out.len() && !str_lt(t.as_slice(), out[p].as_slice());
            proof {
                if p < ov.len() {
                    lemma_seq_lt_trichotomy(ov[p as int], tv);
                }
            }
            if !dup {
                proof {
                    if p < ov.len() {
                        assert(!seq_lt(ov[p as int], tv));
                        assert(seq_lt(tv, ov[p as int]));
                    }
                }
                out.insert(p, t);
                let ghost nv = out@.map_values(|v: Vec<char>| v@);
                assert(nv =~= ov.insert(p as int, tv));
                proof {
                    assert forall|a: int, b: int| 0 <= a < b < nv.len() implies seq_lt(#[trigger] nv[a], #[trigger] nv[b]) by {
                        if b < p {
                            assert(nv[a] == ov[a] && nv[b] == ov[b]);
                        } else if b == p {
                            assert(nv[a] == ov[a]);
                        } else if a == p {
                            assert(nv[b] == ov[b - 1]);
                            if b - 1 > p {
                                lemma_seq_lt_transitive(tv, ov[p as int], ov[b - 1]);
                            }
                        } else if a < p {
                            assert(nv[a] == ov[a] && nv[b] == ov[b - 1]);
                            assert(seq_lt(ov[a], tv));
                            assert(seq_lt(tv, ov[p as int]));
                            lemma_seq_lt_transitive(ov[a], tv, ov[p as int]);
                            if b - 1 > p {
                                lemma_seq_lt_transitive(ov[a], ov[p as int], ov[b - 1]);
                            }
                        } else {
                            assert(nv[a] == ov[a - 1] && nv[b] == ov[b - 1]);
                        }
                    }
                    assert forall|x: Seq<char>| #![trigger normalised_member(vv.take(i + 1), x)]
                        normalised_member(vv.take(i + 1), x) <==> nv.contains(x) by {
                        if normalised_member(vv.take(i + 1), x) {
                            let k = choose|k: int| 0 <= k < vv.take(i + 1).len() && trim_seq(#[trigger] vv.take(i + 1)[k]) == x;
                            if k < i {
                                assert(vv.take(i as int)[k] == vv.take(i + 1)[k]);
                                assert(normalised_member(vv.take(i as int), x));
                                let m = choose|m: int| 0 <= m < ov.len() && ov[m] == x;
                                if m < p { assert(nv[m] == x); } else { assert(nv[m + 1] == x); }
                            } else {
                                assert(nv[p as int] == x);
                            }
                        }
                        if nv.contains(x) {
                            let m = choose|m: int| 0 <= m < nv.len() && nv[m] == x;
                            if m == p {
                                assert(trim_seq(vv.take(i + 1)[i as int]) == x);
                            } else {
                                let mm = if m < p { m } else { m - 1 };
                                assert(ov[mm] == x);
                                assert(ov.contains(x));
                                assert(normalised_member(vv.take(i as int), x));
                                let k = choose|k: int| 0 <= k < vv.take(i as int).len() && trim_seq(#[trigger] vv.take(i as int)[k]) == x;
                                assert(vv.take(i + 1)[k] == vv.take(i as int)[k]);
                            }
                        }
                    }
                }
            } else {
                proof {
                    assert(ov[p as int] == tv);
                    assert forall|x: Seq<char>| #![trigger normalised_member(vv.take(i + 1), x)]
                        normalised_member(vv.take(i + 1), x) <==> ov.contains(x) by {
                        if normalised_member(vv.take(i + 1), x) {
                            let k = choose|k: int| 0 <= k < vv.take(i + 1).len() && trim_seq(#[trigger] vv.take(i + 1)[k]) == x;
                            if k < i {
                                assert(vv.take(i as int)[k] == vv.take(i + 1)[k]);
                                assert(normalised_member(vv.take(i as int), x));
                            } else {
                                assert(ov[p as int] == x);
                            }
                        }
                        if ov.contains(x) {
                            assert(normalised_member(vv.take(i as int), x));
                            let k = choose|k: int| 0 <= k < vv.take(i as int).len() && trim_seq(#[trigger] vv.take(i as int)[k]) == x;
                            assert(vv.take(i + 1)[k] == vv.take(i as int)[k]);
                        }
                    }
                }
            }
        } else {
            proof {
                assert forall|x: Seq<char>| #![trigger normalised_member(vv.take(i + 1), x)]
                    normalised_member(vv.take(i + 1), x) <==> ov.contains(x) by {
                    if normalised_member(vv.take(i + 1), x) {
                        let k = choose|k: int| 0 <= k < vv.take(i + 1).len() && trim_seq(#[trigger] vv.take(i + 1)[k]) == x;
                        if k < i {
                            assert(vv.take(i as int)[k] == vv.take(i + 1)[k]);
                            assert(normalised_member(vv.take(i as int), x));
                        } else {
                            assert(trim_seq(vv[i as int]).len() == 0);
                        }
                    }
                    if ov.contains(x) {
                        assert(normalised_member(vv.take(i as int), x));
                        let k = choose|k: int| 0 <= k < vv.take(i as int).len() && trim_seq(#[trigger] vv.take(i as int)[k]) == x;
                        assert(vv.take(i + 1)[k] == vv.take(i as int)[k]);
                    }
                }
            }
        }
        i = i + 1;
    }
    assert(vv.take(values@.len() as int) =~= vv);
    let mut r: Vec<String> = Vec::new();
    let mut k: usize = 0;
    while k < out.len()
        invariant
            k <= out@.len(),
            views_of(r@) == out@.map_values(|v: Vec<char>| v@).take(k as int),
        decreases out.len() - k,
    {
        let s = string_of(out[k].as_slice());
        let ghost before = views_of(r@);
        r.push(s);
        assert(views_of(r@) =~= before.push(out@[k as int]@));
        k = k + 1;
        assert(out@.map_values(|v: Vec<char>| v@).take(k as int) =~= out@.map_values(|v: Vec<char>| v@).take(k - 1 as int).push(out@[k - 1]@));
    }
    assert(out@.map_values(|v: Vec<char>| v@).take(out@.len() as int) =~= out@.map_values(|v: Vec<char>| v@));
    r
}


// ---------------------------------------------------------------------------
// Body templates
// ---------------------------------------------------------------------------

/// The fields of a task event that a webhook body can mention. Times are in
/// RFC 3339 form.
#[derive(Debug)]
pub struct TaskWebhookPayload {
    pub task_id: String,
    pub task_type: String,
    pub status: String,
    pub queue: String,
    pub priority: i64,
    pub attempt: i64,
    pub max_attempts: i64,
    pub last_error: Option<String>,
    pub manga_id: Option<String>,
    pub manga_title: Option<String>,
    pub chapter_id: Option<String>,
    pub chapter_number_raw: Option<String>,
    pub created_at: String,
    pub updated_at: String,
}

fn or_empty_str(v: &Option<String>) -> (r: &str)
    ensures
        r@ == text_or_empty(*v),
{
    match v {
        Some(s) => s.as_str(),
        None => {
            proof { reveal_strlit(""); }
            ""
        },
    }
}

/// The template with each `{{variable}}` placeholder replaced in turn by the
/// payload field of that name.
pub open spec fn render_body_spec(t: Seq<char>, p: TaskWebhookPayload) -> Seq<char> {
    replace_spec(
        replace_spec(
        replace_spec(
        replace_spec(
        replace_spec(
        replace_spec(
        replace_spec(
        replace_spec(
        replace_spec(
        replace_spec(
        replace_spec(
        replace_spec(
        replace_spec(
        replace_spec(
        t,
        "{{task_id}}"@,
        p.task_id@,
    ),
        "{{task_type}}"@,
        p.task_type@,
    ),
        "{{status}}"@,
        p.status@,
    ),
        "{{queue}}"@,
        p.queue@,
    ),
        "{{priority}}"@,
        int_digits(p.priority as int),
    ),
        "{{attempt}}"@,
        int_digits(p.attempt as int),
    ),
        "{{max_attempts}}"@,
        int_digits(p.max_attempts as int),
    ),
        "{{last_error}}"@,
        text_or_empty(p.last_error),
    ),
        "{{manga_id}}"@,
        text_or_empty(p.manga_id),
    ),
        "{{manga_title}}"@,
        text_or_empty(p.manga_title),
    ),
        "{{chapter_id}}"@,
        text_or_empty(p.chapter_id),
    ),
        "{{chapter_number_raw}}"@,
        text_or_empty(p.chapter_number_raw),
    ),
        "{{created_at}}"@,
        p.created_at@,
    ),
        "{{updated_at}}"@,
        p.updated_at@,
    )
}

/// Substitutes the `{{variable}}` placeholders of a template with payload fields;
/// missing fields render as an empty string.
pub fn render_body(template: &str, payload: &TaskWebhookPayload) -> (r: String)
    ensures
        r@ == render_body_spec(template@, *payload),
{
    let mut out = string_of(chars_of(template).as_slice());
    proof { reveal_strlit("{{task_id}}"); }
    out = replace_all(out.as_str(), "{{task_id}}", payload.task_id.as_str());
    proof { reveal_strlit("{{task_type}}"); }
    out = replace_all(out.as_str(), "{{task_type}}", payload.task_type.as_str());
    proof { reveal_strlit("{{status}}"); }
    out = replace_all(out.as_str(), "{{status}}", payload.status.as_str());
    proof { reveal_strlit("{{queue}}"); }
    out = replace_all(out.as_str(), "{{queue}}", payload.queue.as_str());
    let priority = i64_to_string(payload.priority);
    proof { reveal_strlit("{{priority}}"); }
    out = replace_all(out.as_str(), "{{priority}}", priority.as_str());
    let attempt = i64_to_string(payload.attempt);
    proof { reveal_strlit("{{attempt}}"); }
    out = replace_all(out.as_str(), "{{attempt}}", attempt.as_str());
    let max_attempts = i64_to_string(payload.max_attempts);
    proof { reveal_strlit("{{max_attempts}}"); }
    out = replace_all(out.as_str(), "{{max_attempts}}", max_attempts.as_str());
    let last_error = or_empty_str(&payload.last_error);
    proof { reveal_strlit("{{last_error}}"); }
    out = replace_all(out.as_str(), "{{last_error}}", last_error);
    let manga_id = or_empty_str(&payload.manga_id);
    proof { reveal_strlit("{{manga_id}}"); }
    out = replace_all(out.as_str(), "{{manga_id}}", manga_id);
    let manga_title = or_empty_str(&payload.manga_title);
    proof { reveal_strlit("{{manga_title}}"); }
    out = replace_all(out.as_str(), "{{manga_title}}", manga_title);
    let chapter_id = or_empty_str(&payload.chapter_id);
    proof { reveal_strlit("{{chapter_id}}"); }
    out = replace_all(out.as_str(), "{{chapter_id}}", chapter_id);
    let chapter_number_raw = or_empty_str(&payload.chapter_number_raw);
    proof { reveal_strlit("{{chapter_number_raw}}"); }
    out = replace_all(out.as_str(), "{{chapter_number_raw}}", chapter_number_raw);
    proof { reveal_strlit("{{created_at}}"); }
    out = replace_all(out.as_str(), "{{created_at}}", payload.created_at.as_str());
    proof { reveal_strlit("{{updated_at}}"); }
    out = replace_all(out.as_str(), "{{updated_at}}", payload.updated_at.as_str());
    out
}

// ---------------------------------------------------------------------------
// Normalising twice
// ---------------------------------------------------------------------------

/// A trimmed text has no whitespace at either end.
proof fn lemma_trim_ends(s: Seq<char>)
    ensures
        trim_seq(s).len() == 0 || (!is_ws(trim_seq(s)[0]) && !is_ws(trim_seq(s).last())),
    decreases s.len(),
{
    if s.len() > 0 {
        if is_ws(s[0]) {
            lemma_trim_ends(s.drop_first());
        } else if is_ws(s.last()) {
            lemma_trim_ends(s.drop_last());
        }
    }
}

/// Trimming a trimmed text changes nothing.
proof fn lemma_trim_idempotent(s: Seq<char>)
    ensures
        trim_seq(trim_seq(s)) == trim_seq(s),
{
    lemma_trim_ends(s);
}

/// Two strictly sorted lists with the same elements are the same list.
proof fn lemma_sorted_unique(a: Seq<Seq<char>>, b: Seq<Seq<char>>)
    requires
        strictly_sorted(a),
        strictly_sorted(b),
        forall|x: Seq<char>| a.contains(x) <==> b.contains(x),
    ensures
        a == b,
    decreases a.len(),
{
    if a.len() == 0 {
        if b.len() > 0 {
            assert(b.contains(b[0]));
        }
        assert(a =~= b);
    } else {
        assert(a.contains(a[0]));
        assert(b.len() > 0);
        assert(b.contains(b[0]));
        lemma_seq_lt_trichotomy(a[0], b[0]);
        if a[0] != b[0] {
            let j = choose|j: int| 0 <= j < b.len() && b[j] == a[0];
            let k = choose|k: int| 0 <= k < a.len() && a[k] == b[0];
            assert(j > 0 && k > 0);
            assert(seq_lt(b[0], b[j]));
            assert(seq_lt(a[0], a[k]));
            assert(false);
        }
        let ta = a.drop_first();
        let tb = b.drop_first();
        assert forall|x: Seq<char>| ta.contains(x) <==> tb.contains(x) by {
            if ta.contains(x) {
                let i = choose|i: int| 0 <= i < ta.len() && ta[i] == x;
                assert(a[i + 1] == x);
                assert(seq_lt(a[0], a[i + 1]));
                lemma_seq_lt_trichotomy(a[0], x);
                assert(b.contains(x));
                let j = choose|j: int| 0 <= j < b.len() && b[j] == x;
                assert(j != 0);
                assert(tb[j - 1] == x);
            }
            if tb.contains(x) {
                let i = choose|i: int| 0 <= i < tb.len() && tb[i] == x;
                assert(b[i + 1] == x);
                assert(seq_lt(b[0], b[i + 1]));
                lemma_seq_lt_trichotomy(b[0], x);
                assert(a.contains(x));
                let j = choose|j: int| 0 <= j < a.len() && a[j] == x;
                assert(j != 0);
                assert(ta[j - 1] == x);
            }
        }
        lemma_sorted_unique(ta, tb);
        assert(a =~= b) by {
            assert forall|i: int| 0 <= i < a.len() implies a[i] == b[i] by {
                if i > 0 {
                    assert(ta[i - 1] == tb[i - 1]);
                }
            }
        }
    }
}

/// Normalising filters that are already normalised gives them back: a
/// webhook's stored filters, sent back unchanged, stay as they are.
pub proof fn law_normalising_twice_changes_nothing(values: Seq<Seq<char>>, once: Seq<Seq<char>>, twice: Seq<Seq<char>>)
    requires
        strictly_sorted(once),
        forall|x: Seq<char>| #![trigger normalised_member(values, x)] normalised_member(values, x) <==> once.contains(x),
        strictly_sorted(twice),
        forall|x: Seq<char>| #![trigger normalised_member(once, x)] normalised_member(once, x) <==> twice.contains(x),
    ensures
        twice == once,
{
    assert forall|x: Seq<char>| once.contains(x) <==> twice.contains(x) by {
        if once.contains(x) {
            assert(normalised_member(values, x));
            let k = choose|k: int| 0 <= k < values.len() && trim_seq(#[trigger] values[k]) == x;
            lemma_trim_idempotent(values[k]);
            let i = choose|i: int| 0 <= i < once.len() && once[i] == x;
            assert(trim_seq(once[i]) == x);
            assert(normalised_member(once, x));
        }
        if twice.contains(x) {
            assert(normalised_member(once, x));
            let i = choose|i: int| 0 <= i < once.len() && trim_seq(#[trigger] once[i]) == x;
            assert(once.contains(once[i]));
            assert(normalised_member(values, once[i]));
            let k = choose|k: int| 0 <= k < values.len() && trim_seq(#[trigger] values[k]) == once[i];
            lemma_trim_idempotent(values[k]);
            assert(x == once[i]);
        }
    }
    lemma_sorted_unique(once, twice);
}


// ---------------------------------------------------------------------------
// What a placeholder renders to
// ---------------------------------------------------------------------------

/// The template after the first `n` substitutions of `ps` (placeholder, value), in order.
pub open spec fn subst_upto(s: Seq<char>, ps: Seq<(Seq<char>, Seq<char>)>, n: int) -> Seq<char>
    decreases n,
{
    if n <= 0 {
        s
    } else {
        replace_spec(subst_upto(s, ps, n - 1), ps[n - 1].0, ps[n - 1].1)
    }
}

/// Each placeholder with the payload text it stands for.
pub open spec fn payload_fields(p: TaskWebhookPayload) -> Seq<(Seq<char>, Seq<char>)> {
    seq![
        ("{{task_id}}"@, p.task_id@),
        ("{{task_type}}"@, p.task_type@),
        ("{{status}}"@, p.status@),
        ("{{queue}}"@, p.queue@),
        ("{{priority}}"@, int_digits(p.priority as int)),
        ("{{attempt}}"@, int_digits(p.attempt as int)),
        ("{{max_attempts}}"@, int_digits(p.max_attempts as int)),
        ("{{last_error}}"@, text_or_empty(p.last_error)),
        ("{{manga_id}}"@, text_or_empty(p.manga_id)),
        ("{{manga_title}}"@, text_or_empty(p.manga_title)),
        ("{{chapter_id}}"@, text_or_empty(p.chapter_id)),
        ("{{chapter_number_raw}}"@, text_or_empty(p.chapter_number_raw)),
        ("{{created_at}}"@, p.created_at@),
        ("{{updated_at}}"@, p.updated_at@),
    ]
}

proof fn lemma_render_in_order(t: Seq<char>, p: TaskWebhookPayload)
    ensures
        render_body_spec(t, p) == subst_upto(t, payload_fields(p), 14),
{
    reveal_with_fuel(subst_upto, 15);
}

proof fn lemma_replace_absent(s: Seq<char>, p: Seq<char>, t: Seq<char>)
    requires
        p.len() > 0,
        !contains_spec(s, p),
    ensures
        replace_spec(s, p, t) == s,
    decreases s.len(),
{
    if s.len() > 0 {
        if starts_with_spec(s, p) {
            assert(s.subrange(0, 0 + p.len() as int) == p);
            assert(contains_spec(s, p));
        }
        let d = s.drop_first();
        if contains_spec(d, p) {
            let i = choose|i: int| 0 <= i && i + p.len() <= d.len() && #[trigger] d.subrange(i, i + p.len()) == p;
            assert(s.subrange(i + 1, i + 1 + p.len()) =~= d.subrange(i, i + p.len()));
            assert(contains_spec(s, p));
        }
        lemma_replace_absent(d, p, t);
        assert(replace_spec(s, p, t) == seq![s[0]] + replace_spec(d, p, t));
        assert(seq![s[0]] + d =~= s);
    }
}

proof fn lemma_replace_whole(p: Seq<char>, t: Seq<char>)
    requires
        p.len() > 0,
    ensures
        replace_spec(p, p, t) == t,
{
    assert(starts_with_spec(p, p)) by {
        assert(p.subrange(0, p.len() as int) =~= p);
    }
    let e = p.skip(p.len() as int);
    assert(e =~= Seq::<char>::empty());
    assert(replace_spec(e, p, t) == e);
    assert(replace_spec(p, p, t) == t + replace_spec(e, p, t));
    assert(t + e =~= t);
}

proof fn lemma_subst_absent(s: Seq<char>, ps: Seq<(Seq<char>, Seq<char>)>, n: int)
    requires
        n <= ps.len(),
        forall|j: int| 0 <= j < n ==> (#[trigger] ps[j]).0.len() > 0 && !contains_spec(s, ps[j].0),
    ensures
        subst_upto(s, ps, n) == s,
    decreases n,
{
    if n > 0 {
        lemma_subst_absent(s, ps, n - 1);
        assert(ps[n - 1].0.len() > 0);
        lemma_replace_absent(s, ps[n - 1].0, ps[n - 1].1);
    }
}

proof fn lemma_subst_one(ps: Seq<(Seq<char>, Seq<char>)>, n: int, k: int)
    requires
        0 <= k < n <= ps.len(),
        forall|j: int| 0 <= j < n ==> (#[trigger] ps[j]).0.len() > 0,
        forall|j: int| 0 <= j < n && j != k ==> !contains_spec(ps[k].0, (#[trigger] ps[j]).0),
        forall|j: int| k < j < n ==> !contains_spec(ps[k].1, (#[trigger] ps[j]).0),
    ensures
        subst_upto(ps[k].0, ps, n) == ps[k].1,
    decreases n,
{
    if n - 1 > k {
        lemma_subst_one(ps, n - 1, k);
        assert(ps[n - 1].0.len() > 0);
        lemma_replace_absent(ps[k].1, ps[n - 1].0, ps[n - 1].1);
    } else {
        lemma_subst_absent(ps[k].0, ps, k);
        assert(ps[k].0.len() > 0);
        lemma_replace_whole(ps[k].0, ps[k].1);
    }
}

/// A placeholder: `{{`, a name without braces, `}}`.
pub open spec fn placeholder_shape(x: Seq<char>) -> bool {
    &&& x.len() >= 4
    &&& x[0] == '{' && x[1] == '{'
    &&& x[x.len() - 2] == '}' && x[x.len() - 1] == '}'
    &&& forall|m: int| 2 <= m < x.len() - 2 ==> #[trigger] x[m] != '{' && x[m] != '}'
}

proof fn lemma_placeholder_in_placeholder(a: Seq<char>, b: Seq<char>)
    requires
        placeholder_shape(a),
        placeholder_shape(b),
        contains_spec(a, b),
    ensures
        a == b,
{
    let i = choose|i: int| 0 <= i && i + b.len() <= a.len() && #[trigger] a.subrange(i, i + b.len()) == b;
    let w = a.subrange(i, i + b.len());
    assert(w[0] == a[i] && w[1] == a[i + 1]);
    assert(i == 0) by {
        if i >= 2 {
            assert(a[i] == '{');
            assert(i >= a.len() - 2);
        } else if i == 1 {
            assert(a[2] == '{');
        }
    }
    assert(w[b.len() - 1] == a[b.len() - 1]);
    assert(w[b.len() - 2] == a[b.len() - 2]);
    assert(b.len() >= a.len());
    assert(a =~= w);
}

/// No placeholder (nor any `{{`) in the text.
pub open spec fn free_of_placeholders(x: Seq<char>) -> bool {
    !contains_spec(x, "{{"@)
}

proof fn lemma_free_has_no_placeholder(x: Seq<char>, b: Seq<char>)
    requires
        free_of_placeholders(x),
        placeholder_shape(b),
    ensures
        !contains_spec(x, b),
{
    reveal_strlit("{{");
    if contains_spec(x, b) {
        let i = choose|i: int| 0 <= i && i + b.len() <= x.len() && #[trigger] x.subrange(i, i + b.len()) == b;
        assert(x.subrange(i, i + 2) =~= "{{"@);
    }
}

proof fn lemma_digits_free(n: nat)
    ensures
        forall|k: int| 0 <= k < nat_digits(n).len() ==> (#[trigger] nat_digits(n)[k]) as int != 123,
    decreases n,
{
    if n >= 10 {
        lemma_digits_free(n / 10);
        let d = (n % 10) as int;
        assert(digit_char(d) as int == d + 48);
        let t = nat_digits(n / 10);
        assert forall|k: int| 0 <= k < nat_digits(n).len() implies (#[trigger] nat_digits(n)[k]) as int != 123 by {
            if k < t.len() {
                assert(nat_digits(n)[k] == t[k]);
            }
        }
    } else {
        assert(digit_char(n as int) as int == n + 48);
    }
}

proof fn lemma_int_digits_free(v: int)
    ensures
        free_of_placeholders(int_digits(v)),
{
    reveal_strlit("{{");
    let d = int_digits(v);
    lemma_digits_free(if v < 0 { (-v) as nat } else { v as nat });
    assert forall|k: int| 0 <= k < d.len() implies (#[trigger] d[k]) as int != 123 by {
        if v < 0 && k > 0 {
            assert(d[k] == nat_digits((-v) as nat)[k - 1]);
        }
    }
    if contains_spec(d, "{{"@) {
        let i = choose|i: int| 0 <= i && i + 2 <= d.len() && #[trigger] d.subrange(i, i + 2) == "{{"@;
        assert(d.subrange(i, i + 2)[0] == d[i]);
        assert('{' as int == 123);
    }
}

proof fn lemma_field_names(p: TaskWebhookPayload)
    ensures
        forall|j: int| 0 <= j < 14 ==> placeholder_shape((#[trigger] payload_fields(p)[j]).0),
        forall|j: int, k: int| 0 <= j < 14 && 0 <= k < 14 && j != k ==>
            (#[trigger] payload_fields(p)[j]).0.len() != (#[trigger] payload_fields(p)[k]).0.len()
            || payload_fields(p)[j].0[2] != payload_fields(p)[k].0[2]
            || payload_fields(p)[j].0[3] != payload_fields(p)[k].0[3],
{
    reveal_strlit("{{task_id}}");
    reveal_strlit("{{task_type}}");
    reveal_strlit("{{status}}");
    reveal_strlit("{{queue}}");
    reveal_strlit("{{priority}}");
    reveal_strlit("{{attempt}}");
    reveal_strlit("{{max_attempts}}");
    reveal_strlit("{{last_error}}");
    reveal_strlit("{{manga_id}}");
    reveal_strlit("{{manga_title}}");
    reveal_strlit("{{chapter_id}}");
    reveal_strlit("{{chapter_number_raw}}");
    reveal_strlit("{{created_at}}");
    reveal_strlit("{{updated_at}}");
}


/// A template that is a single placeholder renders to the payload text of
/// that placeholder's name (an absent optional field as empty text, a number
/// in decimal), provided no text of the payload holds `{{`.
pub proof fn law_placeholder_renders_its_field(p: TaskWebhookPayload)
    requires
        free_of_placeholders(p.task_id@),
        free_of_placeholders(p.task_type@),
        free_of_placeholders(p.status@),
        free_of_placeholders(p.queue@),
        free_of_placeholders(text_or_empty(p.last_error)),
        free_of_placeholders(text_or_empty(p.manga_id)),
        free_of_placeholders(text_or_empty(p.manga_title)),
        free_of_placeholders(text_or_empty(p.chapter_id)),
        free_of_placeholders(text_or_empty(p.chapter_number_raw)),
        free_of_placeholders(p.created_at@),
        free_of_placeholders(p.updated_at@),
    ensures
        render_body_spec("{{task_id}}"@, p) == p.task_id@,
        render_body_spec("{{task_type}}"@, p) == p.task_type@,
        render_body_spec("{{status}}"@, p) == p.status@,
        render_body_spec("{{queue}}"@, p) == p.queue@,
        render_body_spec("{{priority}}"@, p) == int_digits(p.priority as int),
        render_body_spec("{{attempt}}"@, p) == int_digits(p.attempt as int),
        render_body_spec("{{max_attempts}}"@, p) == int_digits(p.max_attempts as int),
        render_body_spec("{{last_error}}"@, p) == text_or_empty(p.last_error),
        render_body_spec("{{manga_id}}"@, p) == text_or_empty(p.manga_id),
        render_body_spec("{{manga_title}}"@, p) == text_or_empty(p.manga_title),
        render_body_spec("{{chapter_id}}"@, p) == text_or_empty(p.chapter_id),
        render_body_spec("{{chapter_number_raw}}"@, p) == text_or_empty(p.chapter_number_raw),
        render_body_spec("{{created_at}}"@, p) == p.created_at@,
        render_body_spec("{{updated_at}}"@, p) == p.updated_at@,
{
    let ps = payload_fields(p);
    lemma_field_names(p);
    lemma_int_digits_free(p.priority as int);
    lemma_int_digits_free(p.attempt as int);
    lemma_int_digits_free(p.max_attempts as int);
    assert forall|k: int| 0 <= k < 14 implies free_of_placeholders((#[trigger] ps[k]).1) by {}
    assert forall|j: int| 0 <= j < 14 implies (#[trigger] ps[j]).0.len() > 0 by {}
    assert forall|k: int, j: int| 0 <= k < 14 && 0 <= j < 14 && j != k
        implies !contains_spec((#[trigger] ps[k]).0, (#[trigger] ps[j]).0) by {
        if contains_spec(ps[k].0, ps[j].0) {
            lemma_placeholder_in_placeholder(ps[k].0, ps[j].0);
        }
    }
    assert forall|k: int, j: int| 0 <= k < 14 && 0 <= j < 14
        implies !contains_spec((#[trigger] ps[k]).1, (#[trigger] ps[j]).0) by {
        lemma_free_has_no_placeholder(ps[k].1, ps[j].0);
    }
    assert forall|k: int| 0 <= k < 14 implies render_body_spec((#[trigger] ps[k]).0, p) == ps[k].1 by {
        lemma_subst_one(ps, 14, k);
        lemma_render_in_order(ps[k].0, p);
    }
    assert(ps[0].0 == "{{task_id}}"@);
    assert(ps[1].0 == "{{task_type}}"@);
    assert(ps[2].0 == "{{status}}"@);
    assert(ps[3].0 == "{{queue}}"@);
    assert(ps[4].0 == "{{priority}}"@);
    assert(ps[5].0 == "{{attempt}}"@);
    assert(ps[6].0 == "{{max_attempts}}"@);
    assert(ps[7].0 == "{{last_error}}"@);
    assert(ps[8].0 == "{{manga_id}}"@);
    assert(ps[9].0 == "{{manga_title}}"@);
    assert(ps[10].0 == "{{chapter_id}}"@);
    assert(ps[11].0 == "{{chapter_number_raw}}"@);
    assert(ps[12].0 == "{{created_at}}"@);
    assert(ps[13].0 == "{{updated_at}}"@);
}

/// A template that is the `{{updated_at}}` placeholder renders to the task's
/// update time, whatever the rest of the payload holds.
pub proof fn law_updated_at_placeholder(p: TaskWebhookPayload)
    ensures
        render_body_spec("{{updated_at}}"@, p) == p.updated_at@,
{
    let ps = payload_fields(p);
    lemma_field_names(p);
    assert forall|j: int| 0 <= j < 14 implies (#[trigger] ps[j]).0.len() > 0 by {}
    assert forall|j: int| 0 <= j < 14 && j != 13 implies !contains_spec(ps[13].0, (#[trigger] ps[j]).0) by {
        if contains_spec(ps[13].0, ps[j].0) {
            lemma_placeholder_in_placeholder(ps[13].0, ps[j].0);
        }
    }
    lemma_subst_one(ps, 14, 13);
    lemma_render_in_order(ps[13].0, p);
}

} // verus!
