//! Application settings: how an update request turns into stored values, and
//! how stored values read back, with their bounds and defaults.

use vstd::prelude::*;
use crate::errors::{bad_request, is_failure, ApiFailure, ApiStatus};
use crate::text::{
    lemma_decimal_round_trip_bounded, nat_digits, parse_u64, parse_unsigned_spec, str_eq, trim, trim_seq,
    u64_to_string,
};

verus! {

/// Current application settings.
#[derive(Debug)]
pub struct SettingsResponse {
    pub scan_interval_hours: u64,
    pub queue_paused: bool,
    pub browser_worker_count: u64,
    /// Language to prefer when selecting a provider; `None` accepts any.
    pub preferred_language: Option<String>,
    /// Whether the first-run setup wizard has been completed.
    pub wizard_completed: bool,
    /// Whether newly added manga are monitored by default.
    pub default_monitored: bool,
    /// Whether completed series are unmonitored on add and refresh.
    pub auto_unmonitor_completed: bool,
    /// Whether downloaded chapters stay canonical winners.
    pub disable_chapter_upgrades: bool,
    /// "best_only" or "must_have".
    pub download_mode: String,
    pub task_retention_enabled: bool,
    pub task_retention_days: u64,
    pub task_retention_min_keep: u64,
}

/// A settings update: only the fields present change.
#[derive(Debug)]
pub struct UpdateSettingsRequest {
    pub scan_interval_hours: Option<u64>,
    pub queue_paused: Option<bool>,
    pub browser_worker_count: Option<u64>,
    pub preferred_language: Option<String>,
    pub wizard_completed: Option<bool>,
    pub default_monitored: Option<bool>,
    pub auto_unmonitor_completed: Option<bool>,
    pub disable_chapter_upgrades: Option<bool>,
    pub download_mode: Option<String>,
    pub task_retention_enabled: Option<bool>,
    pub task_retention_days: Option<u64>,
    pub task_retention_min_keep: Option<u64>,
}

/// One step of applying a settings update.
#[derive(Debug)]
pub enum SettingsAction {
    /// Store `value` under `key`.
    Write { key: String, value: String },
    /// Resize the browser worker pool.
    SetBrowserWorkerCount(u64),
}

/// The steps of an update, in order, and the failure (a 400 answer) that
/// stops it, if any. Steps before the failure are carried out.
#[derive(Debug)]
pub struct SettingsUpdatePlan {
    pub actions: Vec<SettingsAction>,
    pub error: Option<ApiFailure>,
}

/// An action as specifications see it.
pub enum ActionView {
    Write(Seq<char>, Seq<char>),
    SetBrowserWorkerCount(u64),
}

/// The view of an action.
pub open spec fn action_view(a: SettingsAction) -> ActionView {
    match a {
        SettingsAction::Write { key, value } => ActionView::Write(key@, value@),
        SettingsAction::SetBrowserWorkerCount(n) => ActionView::SetBrowserWorkerCount(n),
    }
}

/// Stored form of a flag.
pub open spec fn flag(b: bool) -> Seq<char> {
    if b {
        "true"@
    } else {
        "false"@
    }
}

/// Stored form of a download mode: "best_only" stays, anything else becomes "must_have".
pub open spec fn download_mode_value(m: Seq<char>) -> Seq<char> {
    if m == "best_only"@ {
        "best_only"@
    } else {
        "must_have"@
    }
}

/// A write of a flag, when the field is present.
pub open spec fn flag_write(key: Seq<char>, v: Option<bool>) -> Seq<ActionView> {
    match v {
        Some(b) => seq![ActionView::Write(key, flag(b))],
        None => Seq::empty(),
    }
}

/// Steps for the scan interval and the pause flag.
pub open spec fn actions_a(r: UpdateSettingsRequest) -> Seq<ActionView> {
    (match r.scan_interval_hours {
        Some(h) => seq![ActionView::Write("scan_interval_hours"@, nat_digits(h as nat))],
        None => Seq::empty(),
    }) + flag_write("queue_paused"@, r.queue_paused)
}

/// Steps for the browser worker count: store it and resize the pool.
pub open spec fn actions_b(r: UpdateSettingsRequest) -> Seq<ActionView> {
    match r.browser_worker_count {
        Some(c) => seq![ActionView::Write("browser_worker_count"@, nat_digits(c as nat)), ActionView::SetBrowserWorkerCount(c)],
        None => Seq::empty(),
    }
}

/// Steps for the language (trimmed), the flags, the download mode and the retention flag.
pub open spec fn actions_c(r: UpdateSettingsRequest) -> Seq<ActionView> {
    (match r.preferred_language {
        Some(l) => seq![ActionView::Write("preferred_language"@, trim_seq(l@))],
        None => Seq::empty(),
    }) + flag_write("wizard_completed"@, r.wizard_completed)
        + flag_write("default_monitored"@, r.default_monitored)
        + flag_write("auto_unmonitor_completed"@, r.auto_unmonitor_completed)
        + flag_write("disable_chapter_upgrades"@, r.disable_chapter_upgrades)
        + (match r.download_mode {
        Some(m) => seq![ActionView::Write("download_mode"@, download_mode_value(m@))],
        None => Seq::empty(),
    }) + flag_write("task_retention_enabled"@, r.task_retention_enabled)
}

/// Step for the retention period.
pub open spec fn actions_d(r: UpdateSettingsRequest) -> Seq<ActionView> {
    match r.task_retention_days {
        Some(d) => seq![ActionView::Write("task_retention_days"@, nat_digits(d as nat))],
        None => Seq::empty(),
    }
}

/// Step for the number of finished tasks always kept.
pub open spec fn actions_e(r: UpdateSettingsRequest) -> Seq<ActionView> {
    match r.task_retention_min_keep {
        Some(k) => seq![ActionView::Write("task_retention_min_keep"@, nat_digits(k as nat))],
        None => Seq::empty(),
    }
}

/// The steps and the error of an update, in field order: a number out of range
/// (scan interval 1 to 168 hours, 1 to 16 browser workers, 1 to 3650 retention
/// days, at most 100000 kept tasks) stops the update with its message after the
/// steps of the fields before it.
pub open spec fn update_plan_spec(r: UpdateSettingsRequest) -> (Seq<ActionView>, Option<Seq<char>>) {
    if r.scan_interval_hours matches Some(h) && !(1 <= h <= 168) {
        (Seq::empty(), Some("scan_interval_hours must be 1\u{2013}168"@))
    } else if r.browser_worker_count matches Some(c) && !(1 <= c <= 16) {
        (actions_a(r), Some("browser_worker_count must be 1\u{2013}16"@))
    } else if r.task_retention_days matches Some(d) && !(1 <= d <= 3650) {
        (actions_a(r) + actions_b(r) + actions_c(r), Some("task_retention_days must be 1\u{2013}3650"@))
    } else if r.task_retention_min_keep matches Some(k) && k > 100_000 {
        (actions_a(r) + actions_b(r) + actions_c(r) + actions_d(r), Some("task_retention_min_keep must be 0\u{2013}100000"@))
    } else {
        (actions_a(r) + actions_b(r) + actions_c(r) + actions_d(r) + actions_e(r), None)
    }
}

/// The views of a list of actions.
pub open spec fn actions_view(a: Seq<SettingsAction>) -> Seq<ActionView> {
    a.map_values(|x: SettingsAction| action_view(x))
}

fn write(actions: &mut Vec<SettingsAction>, key: &str, value: String)
    ensures
        actions_view(final(actions)@) == actions_view(old(actions)@).push(ActionView::Write(key@, value@)),
{
    let ghost before = actions@;
    actions.push(SettingsAction::Write { key: key.to_owned(), value });
    assert(actions_view(final(actions)@) =~= actions_view(before).push(ActionView::Write(key@, value@)));
}

fn flag_text(b: bool) -> (r: String)
    ensures
        r@ == flag(b),
{
    if b {
        "true".to_owned()
    } else {
        "false".to_owned()
    }
}

fn write_flag(actions: &mut Vec<SettingsAction>, key: &str, v: Option<bool>)
    ensures
        actions_view(final(actions)@) == actions_view(old(actions)@) + flag_write(key@, v),
{
    match v {
        Some(b) => {
            write(actions, key, flag_text(b));
            assert(actions_view(final(actions)@) =~= actions_view(old(actions)@) + flag_write(key@, v));
        },
        None => {
            assert(actions_view(final(actions)@) =~= actions_view(old(actions)@) + flag_write(key@, v));
        },
    }
}

fn stop(actions: Vec<SettingsAction>, msg: &str) -> (p: SettingsUpdatePlan)
    ensures
        p.actions@ == actions@,
        p.error matches Some(f) && is_failure(f, ApiStatus::BadRequest, msg@),
{
    SettingsUpdatePlan { actions, error: Some(bad_request(msg)) }
}

fn plan_a(req: &UpdateSettingsRequest, actions: &mut Vec<SettingsAction>)
    ensures
        actions_view(final(actions)@) == actions_view(old(actions)@) + actions_a(*req),
{
    let ghost a0 = actions_view(actions@);
    if let Some(hours) = req.scan_interval_hours {
        write(actions, "scan_interval_hours", u64_to_string(hours));
    }
    let ghost a1 = actions_view(actions@);
    write_flag(actions, "queue_paused", req.queue_paused);
    assert(actions_view(actions@) =~= a0 + actions_a(*req));
}

fn plan_b(req: &UpdateSettingsRequest, actions: &mut Vec<SettingsAction>)
    ensures
        actions_view(final(actions)@) == actions_view(old(actions)@) + actions_b(*req),
{
    let ghost a0 = actions_view(actions@);
    if let Some(count) = req.browser_worker_count {
        write(actions, "browser_worker_count", u64_to_string(count));
        let ghost before = actions@;
        actions.push(SettingsAction::SetBrowserWorkerCount(count));
        assert(actions_view(actions@) =~= actions_view(before).push(ActionView::SetBrowserWorkerCount(count)));
    }
    assert(actions_view(actions@) =~= a0 + actions_b(*req));
}

#[verifier::rlimit(60)]
fn plan_c(req: &UpdateSettingsRequest, actions: &mut Vec<SettingsAction>)
    ensures
        actions_view(final(actions)@) == actions_view(old(actions)@) + actions_c(*req),
{
    let ghost a0 = actions_view(actions@);
    if let Some(lang) = &req.preferred_language {
        write(actions, "preferred_language", trim(lang.as_str()));
    }
    let ghost a1 = actions_view(actions@);
    let ghost lang_part = match &req.preferred_language {
        Some(l) => seq![ActionView::Write("preferred_language"@, trim_seq(l@))],
        None => Seq::<ActionView>::empty(),
    };
    assert(a1 =~= a0 + lang_part);
    write_flag(actions, "wizard_completed", req.wizard_completed);
    write_flag(actions, "default_monitored", req.default_monitored);
    write_flag(actions, "auto_unmonitor_completed", req.auto_unmonitor_completed);
    write_flag(actions, "disable_chapter_upgrades", req.disable_chapter_upgrades);
    let ghost a2 = actions_view(actions@);
    let ghost flags = flag_write("wizard_completed"@, req.wizard_completed) + flag_write("default_monitored"@, req.default_monitored)
        + flag_write("auto_unmonitor_completed"@, req.auto_unmonitor_completed)
        + flag_write("disable_chapter_upgrades"@, req.disable_chapter_upgrades);
    assert(a2 =~= a1 + flags);
    if let Some(mode) = &req.download_mode {
        let v = if str_eq(mode.as_str(), "best_only") {
            "best_only".to_owned()
        } else {
            "must_have".to_owned()
        };
        write(actions, "download_mode", v);
    }
    let ghost a3 = actions_view(actions@);
    let ghost mode_part = match &req.download_mode {
        Some(m) => seq![ActionView::Write("download_mode"@, download_mode_value(m@))],
        None => Seq::<ActionView>::empty(),
    };
    assert(a3 =~= a2 + mode_part);
    write_flag(actions, "task_retention_enabled", req.task_retention_enabled);
    assert(actions_c(*req) =~= lang_part + flags + mode_part + flag_write("task_retention_enabled"@, req.task_retention_enabled));
    assert(actions_view(actions@) =~= a0 + actions_c(*req));
}

/// Plans a settings update: the values to store, in field order, and the first
/// out-of-range number, which stops the update after the steps before it.
pub fn update_settings_plan(req: &UpdateSettingsRequest) -> (p: SettingsUpdatePlan)
    ensures
        actions_view(p.actions@) == update_plan_spec(*req).0,
        match update_plan_spec(*req).1 {
            Some(msg) => p.error matches Some(f) && is_failure(f, ApiStatus::BadRequest, msg),
            None => p.error is None,
        },
{
    let mut actions: Vec<SettingsAction> = Vec::new();
    assert(actions_view(actions@) =~= Seq::<ActionView>::empty());
    if let Some(hours) = req.scan_interval_hours {
        if !(1 <= hours && hours <= 168) {
            return stop(actions, "scan_interval_hours must be 1\u{2013}168");
        }
    }
    plan_a(req, &mut actions);
    assert(actions_view(actions@) =~= actions_a(*req));
    if let Some(count) = req.browser_worker_count {
        if !(1 <= count && count <= 16) {
            return stop(actions, "browser_worker_count must be 1\u{2013}16");
        }
    }
    plan_b(req, &mut actions);
    plan_c(req, &mut actions);
    if let Some(days) = req.task_retention_days {
        if !(1 <= days && days <= 3650) {
            return stop(actions, "task_retention_days must be 1\u{2013}3650");
        }
        write(&mut actions, "task_retention_days", u64_to_string(days));
    }
    assert(actions_view(actions@) =~= actions_a(*req) + actions_b(*req) + actions_c(*req) + actions_d(*req));
    if let Some(min_keep) = req.task_retention_min_keep {
        if min_keep > 100_000 {
            return stop(actions, "task_retention_min_keep must be 0\u{2013}100000");
        }
        write(&mut actions, "task_retention_min_keep", u64_to_string(min_keep));
    }
    assert(actions_view(actions@) =~= actions_a(*req) + actions_b(*req) + actions_c(*req) + actions_d(*req) + actions_e(*req));
    SettingsUpdatePlan { actions, error: None }
}

// ---------------------------------------------------------------------------
// Reading stored settings
// ---------------------------------------------------------------------------

/// The stored value of every setting, or its default when none is stored.
#[derive(Debug)]
pub struct StoredSettings {
    pub scan_interval_hours: String,
    pub queue_paused: String,
    pub browser_worker_count: String,
    pub preferred_language: String,
    pub wizard_completed: String,
    pub default_monitored: String,
    pub auto_unmonitor_completed: String,
    pub disable_chapter_upgrades: String,
    pub download_mode: String,
    pub task_retention_enabled: String,
    pub task_retention_days: String,
    pub task_retention_min_keep: String,
}

/// A stored number, or `default` when it does not parse.
pub open spec fn number_or(s: Seq<char>, default: nat) -> nat {
    match parse_unsigned_spec(s, u64::MAX as nat) {
        Some(v) => v,
        None => default,
    }
}

/// `Ord::clamp`.
pub open spec fn clamp(v: nat, lo: nat, hi: nat) -> nat {
    if v < lo {
        lo
    } else if v > hi {
        hi
    } else {
        v
    }
}

/// How stored values read: numbers fall back to their defaults (6 hours, 3
/// workers, 30 days, 200 tasks) and are clamped to their ranges (workers 1 to 16,
/// days 1 to 3650, kept tasks at most 100000); flags are "true", except
/// `default_monitored`, which holds unless it is "false"; an empty language
/// means none.
pub open spec fn settings_view_ok(s: StoredSettings, r: SettingsResponse) -> bool {
    &&& r.scan_interval_hours == number_or(s.scan_interval_hours@, 6)
    &&& r.queue_paused == (s.queue_paused@ == "true"@)
    &&& r.browser_worker_count == clamp(number_or(s.browser_worker_count@, 3), 1, 16)
    &&& match r.preferred_language {
        None => s.preferred_language@.len() == 0,
        Some(l) => s.preferred_language@.len() > 0 && l@ == s.preferred_language@,
    }
    &&& r.wizard_completed == (s.wizard_completed@ == "true"@)
    &&& r.default_monitored == (s.default_monitored@ != "false"@)
    &&& r.auto_unmonitor_completed == (s.auto_unmonitor_completed@ == "true"@)
    &&& r.disable_chapter_upgrades == (s.disable_chapter_upgrades@ == "true"@)
    &&& r.download_mode@ == download_mode_value(s.download_mode@)
    &&& r.task_retention_enabled == (s.task_retention_enabled@ == "true"@)
    &&& r.task_retention_days == clamp(number_or(s.task_retention_days@, 30), 1, 3650)
    &&& r.task_retention_min_keep == clamp(number_or(s.task_retention_min_keep@, 200), 0, 100_000)
}

fn number_or_exec(s: &String, default: u64) -> (r: u64)
    ensures
        r == number_or(s@, default as nat),
{
    match parse_u64(s.as_str()) {
        Some(v) => v,
        None => default,
    }
}

fn clamp_exec(v: u64, lo: u64, hi: u64) -> (r: u64)
    ensures
        r == clamp(v as nat, lo as nat, hi as nat),
{
    if v < lo {
        lo
    } else if v > hi {
        hi
    } else {
        v
    }
}

/// Reads the current settings from their stored values.
pub fn read_settings(s: &StoredSettings) -> (r: SettingsResponse)
    ensures
        settings_view_ok(*s, r),
{
    let preferred_language = if s.preferred_language.as_str().unicode_len() == 0 {
        None
    } else {
        Some(s.preferred_language.clone())
    };
    let download_mode = if str_eq(s.download_mode.as_str(), "best_only") {
        "best_only".to_owned()
    } else {
        "must_have".to_owned()
    };
    SettingsResponse {
        scan_interval_hours: number_or_exec(&s.scan_interval_hours, 6),
        queue_paused: str_eq(s.queue_paused.as_str(), "true"),
        browser_worker_count: clamp_exec(number_or_exec(&s.browser_worker_count, 3), 1, 16),
        preferred_language,
        wizard_completed: str_eq(s.wizard_completed.as_str(), "true"),
        default_monitored: !str_eq(s.default_monitored.as_str(), "false"),
        auto_unmonitor_completed: str_eq(s.auto_unmonitor_completed.as_str(), "true"),
        disable_chapter_upgrades: str_eq(s.disable_chapter_upgrades.as_str(), "true"),
        download_mode,
        task_retention_enabled: str_eq(s.task_retention_enabled.as_str(), "true"),
        task_retention_days: clamp_exec(number_or_exec(&s.task_retention_days, 30), 1, 3650),
        task_retention_min_keep: clamp_exec(number_or_exec(&s.task_retention_min_keep, 200), 0, 100_000),
    }
}

/// A retention setting stored by an accepted update reads back unchanged: days
/// within 1 to 3650, kept tasks within 0 to 100000, and the flag.
pub proof fn law_retention_settings_round_trip(days: u64, min_keep: u64, enabled: bool, s: StoredSettings, r: SettingsResponse)
    requires
        1 <= days <= 3650,
        min_keep <= 100_000,
        s.task_retention_days@ == nat_digits(days as nat),
        s.task_retention_min_keep@ == nat_digits(min_keep as nat),
        s.task_retention_enabled@ == flag(enabled),
        settings_view_ok(s, r),
    ensures
        r.task_retention_days == days,
        r.task_retention_min_keep == min_keep,
        r.task_retention_enabled == enabled,
{
    lemma_decimal_round_trip_bounded(days as nat, u64::MAX as nat);
    lemma_decimal_round_trip_bounded(min_keep as nat, u64::MAX as nat);
    reveal_strlit("true");
    reveal_strlit("false");
    assert("true"@.len() != "false"@.len());
}

/// A stored setting, written by an accepted update, reads back as written:
/// the scan interval (1 to 168 hours) and the worker count (1 to 16) as
/// themselves, a flag as itself, the download mode as normalised, and the
/// language trimmed, or as none when that leaves nothing.
pub proof fn law_settings_read_back_writes(
    hours: u64,
    workers: u64,
    paused: bool,
    monitored: bool,
    mode: Seq<char>,
    language: Seq<char>,
    s: StoredSettings,
    r: SettingsResponse,
)
    requires
        1 <= hours <= 168,
        1 <= workers <= 16,
        s.scan_interval_hours@ == nat_digits(hours as nat),
        s.browser_worker_count@ == nat_digits(workers as nat),
        s.queue_paused@ == flag(paused),
        s.default_monitored@ == flag(monitored),
        s.download_mode@ == download_mode_value(mode),
        s.preferred_language@ == trim_seq(language),
        settings_view_ok(s, r),
    ensures
        r.scan_interval_hours == hours,
        r.browser_worker_count == workers,
        r.queue_paused == paused,
        r.default_monitored == monitored,
        r.download_mode@ == download_mode_value(mode),
        match r.preferred_language {
            Some(l) => l@ == trim_seq(language) && trim_seq(language).len() > 0,
            None => trim_seq(language).len() == 0,
        },
{
    lemma_decimal_round_trip_bounded(hours as nat, u64::MAX as nat);
    lemma_decimal_round_trip_bounded(workers as nat, u64::MAX as nat);
    reveal_strlit("true");
    reveal_strlit("false");
    reveal_strlit("best_only");
    reveal_strlit("must_have");
    assert("true"@.len() != "false"@.len());
}

/// The stored value of `key` after the actions: the last value written to it,
/// or `before` when none is.
pub open spec fn written(a: Seq<ActionView>, key: Seq<char>, before: Seq<char>) -> Seq<char>
    decreases a.len(),
{
    if a.len() == 0 {
        before
    } else {
        match a.last() {
            ActionView::Write(k, v) => if k == key {
                v
            } else {
                written(a.drop_last(), key, before)
            },
            ActionView::SetBrowserWorkerCount(_) => written(a.drop_last(), key, before),
        }
    }
}

/// `after` holds what the actions wrote over `before`, key by key.
pub open spec fn applied(before: StoredSettings, after: StoredSettings, a: Seq<ActionView>) -> bool {
    &&& after.scan_interval_hours@ == written(a, "scan_interval_hours"@, before.scan_interval_hours@)
    &&& after.queue_paused@ == written(a, "queue_paused"@, before.queue_paused@)
    &&& after.browser_worker_count@ == written(a, "browser_worker_count"@, before.browser_worker_count@)
    &&& after.preferred_language@ == written(a, "preferred_language"@, before.preferred_language@)
    &&& after.wizard_completed@ == written(a, "wizard_completed"@, before.wizard_completed@)
    &&& after.default_monitored@ == written(a, "default_monitored"@, before.default_monitored@)
    &&& after.auto_unmonitor_completed@ == written(a, "auto_unmonitor_completed"@, before.auto_unmonitor_completed@)
    &&& after.disable_chapter_upgrades@ == written(a, "disable_chapter_upgrades"@, before.disable_chapter_upgrades@)
    &&& after.download_mode@ == written(a, "download_mode"@, before.download_mode@)
    &&& after.task_retention_enabled@ == written(a, "task_retention_enabled"@, before.task_retention_enabled@)
    &&& after.task_retention_days@ == written(a, "task_retention_days"@, before.task_retention_days@)
    &&& after.task_retention_min_keep@ == written(a, "task_retention_min_keep"@, before.task_retention_min_keep@)
}

/// Carries out the writes of a plan's steps on the stored settings, in order
/// (resizing the worker pool is the caller's).
pub fn apply_settings_plan(stored: &mut StoredSettings, actions: &Vec<SettingsAction>)
    ensures
        applied(*old(stored), *final(stored), actions_view(actions@)),
{
    let ghost before = *stored;
    let ghost av = actions_view(actions@);
    let mut i: usize = 0;
    while i < actions.len()
        invariant
            i <= actions@.len(),
            av == actions_view(actions@),
            applied(before, *stored, av.take(i as int)),
        decreases actions.len() - i,
    {
        proof {
            assert(av.take(i + 1).drop_last() =~= av.take(i as int));
            assert(av.take(i + 1).last() == action_view(actions@[i as int]));
        }
        match &actions[i] {
            SettingsAction::Write { key, value } => {
                let k = key.as_str();
                if str_eq(k, "scan_interval_hours") {
                    stored.scan_interval_hours = value.clone();
                }
                if str_eq(k, "queue_paused") {
                    stored.queue_paused = value.clone();
                }
                if str_eq(k, "browser_worker_count") {
                    stored.browser_worker_count = value.clone();
                }
                if str_eq(k, "preferred_language") {
                    stored.preferred_language = value.clone();
                }
                if str_eq(k, "wizard_completed") {
                    stored.wizard_completed = value.clone();
                }
                if str_eq(k, "default_monitored") {
                    stored.default_monitored = value.clone();
                }
                if str_eq(k, "auto_unmonitor_completed") {
                    stored.auto_unmonitor_completed = value.clone();
                }
                if str_eq(k, "disable_chapter_upgrades") {
                    stored.disable_chapter_upgrades = value.clone();
                }
                if str_eq(k, "download_mode") {
                    stored.download_mode = value.clone();
                }
                if str_eq(k, "task_retention_enabled") {
                    stored.task_retention_enabled = value.clone();
                }
                if str_eq(k, "task_retention_days") {
                    stored.task_retention_days = value.clone();
                }
                if str_eq(k, "task_retention_min_keep") {
                    stored.task_retention_min_keep = value.clone();
                }
            },
            SettingsAction::SetBrowserWorkerCount(_) => {},
        }
        i = i + 1;
    }
    proof {
        assert(av.take(av.len() as int) =~= av);
    }
}

proof fn lemma_written_append(a: Seq<ActionView>, b: Seq<ActionView>, key: Seq<char>, before: Seq<char>)
    ensures
        written(a + b, key, before) == written(b, key, written(a, key, before)),
    decreases b.len(),
{
    if b.len() == 0 {
        assert(a + b =~= a);
    } else {
        lemma_written_append(a, b.drop_last(), key, before);
        assert((a + b).drop_last() =~= a + b.drop_last());
        assert((a + b).last() == b.last());
    }
}

/// The key a step writes, if it writes one.
pub open spec fn key_of(a: ActionView) -> Option<Seq<char>> {
    match a {
        ActionView::Write(k, _) => Some(k),
        ActionView::SetBrowserWorkerCount(_) => None,
    }
}

/// None of the steps writes `key`.
pub open spec fn writes_no(a: Seq<ActionView>, key: Seq<char>) -> bool {
    forall|i: int| 0 <= i < a.len() ==> key_of(#[trigger] a[i]) != Some(key)
}

proof fn lemma_written_untouched(a: Seq<ActionView>, key: Seq<char>, before: Seq<char>)
    requires
        writes_no(a, key),
    ensures
        written(a, key, before) == before,
    decreases a.len(),
{
    if a.len() > 0 {
        assert(a.last() == a[a.len() - 1]);
        assert forall|i: int| 0 <= i < a.drop_last().len() implies key_of(#[trigger] a.drop_last()[i]) != Some(key) by {
            assert(a.drop_last()[i] == a[i]);
        }
        lemma_written_untouched(a.drop_last(), key, before);
    }
}

/// An accepted update reads back as it was sent: the scan interval, the
/// browser worker count and the retention period and floor it sets are what
/// the settings then report.
pub proof fn law_accepted_update_reads_back(req: UpdateSettingsRequest, before: StoredSettings, after: StoredSettings, r: SettingsResponse)
    requires
        update_plan_spec(req).1 is None,
        applied(before, after, update_plan_spec(req).0),
        settings_view_ok(after, r),
    ensures
        req.scan_interval_hours matches Some(h) ==> r.scan_interval_hours == h,
        req.browser_worker_count matches Some(c) ==> r.browser_worker_count == c,
        req.task_retention_days matches Some(d) ==> r.task_retention_days == d,
        req.task_retention_min_keep matches Some(k) ==> r.task_retention_min_keep == k,
{
    lemma_key_literals();
    let a = actions_a(req);
    let b = actions_b(req);
    let c = actions_c(req);
    let d = actions_d(req);
    let e = actions_e(req);
    assert(update_plan_spec(req).0 == a + b + c + d + e);
    lemma_written_append(a + b + c + d, e, "scan_interval_hours"@, before.scan_interval_hours@);
    lemma_written_append(a + b + c, d, "scan_interval_hours"@, before.scan_interval_hours@);
    lemma_written_append(a + b, c, "scan_interval_hours"@, before.scan_interval_hours@);
    lemma_written_append(a, b, "scan_interval_hours"@, before.scan_interval_hours@);
    lemma_written_append(a + b + c + d, e, "browser_worker_count"@, before.browser_worker_count@);
    lemma_written_append(a + b + c, d, "browser_worker_count"@, before.browser_worker_count@);
    lemma_written_append(a + b, c, "browser_worker_count"@, before.browser_worker_count@);
    lemma_written_append(a, b, "browser_worker_count"@, before.browser_worker_count@);
    lemma_written_append(a + b + c + d, e, "task_retention_days"@, before.task_retention_days@);
    lemma_written_append(a + b + c + d, e, "task_retention_min_keep"@, before.task_retention_min_keep@);
    lemma_settings_parts_keys(req);
    lemma_written_untouched(b, "scan_interval_hours"@, written(a, "scan_interval_hours"@, before.scan_interval_hours@));
    lemma_written_untouched(c, "scan_interval_hours"@, written(a + b, "scan_interval_hours"@, before.scan_interval_hours@));
    lemma_written_untouched(d, "scan_interval_hours"@, written(a + b + c, "scan_interval_hours"@, before.scan_interval_hours@));
    lemma_written_untouched(e, "scan_interval_hours"@, written(a + b + c + d, "scan_interval_hours"@, before.scan_interval_hours@));
    lemma_written_untouched(c, "browser_worker_count"@, written(a + b, "browser_worker_count"@, before.browser_worker_count@));
    lemma_written_untouched(d, "browser_worker_count"@, written(a + b + c, "browser_worker_count"@, before.browser_worker_count@));
    lemma_written_untouched(e, "browser_worker_count"@, written(a + b + c + d, "browser_worker_count"@, before.browser_worker_count@));
    lemma_written_untouched(e, "task_retention_days"@, written(a + b + c + d, "task_retention_days"@, before.task_retention_days@));
    if let Some(h) = req.scan_interval_hours {
        lemma_decimal_round_trip_bounded(h as nat, u64::MAX as nat);
        let key = "scan_interval_hours"@;
        let w = seq![ActionView::Write(key, nat_digits(h as nat))];
        let fq = flag_write("queue_paused"@, req.queue_paused);
        assert(a == w + fq);
        assert forall|i: int| 0 <= i < fq.len() implies key_of(#[trigger] fq[i]) != Some(key) by {}
        lemma_written_append(w, fq, key, before.scan_interval_hours@);
        lemma_written_untouched(fq, key, written(w, key, before.scan_interval_hours@));
        assert(w.drop_last() =~= Seq::<ActionView>::empty());
        assert(written(w, key, before.scan_interval_hours@) == nat_digits(h as nat));
    }
    if let Some(cnt) = req.browser_worker_count {
        lemma_decimal_round_trip_bounded(cnt as nat, u64::MAX as nat);
        lemma_written_untouched(seq![ActionView::SetBrowserWorkerCount(cnt)], "browser_worker_count"@, nat_digits(cnt as nat));
        assert(b == seq![ActionView::Write("browser_worker_count"@, nat_digits(cnt as nat))] + seq![ActionView::SetBrowserWorkerCount(cnt)]);
        lemma_written_append(seq![ActionView::Write("browser_worker_count"@, nat_digits(cnt as nat))], seq![ActionView::SetBrowserWorkerCount(cnt)], "browser_worker_count"@, written(a, "browser_worker_count"@, before.browser_worker_count@));
    }
    if let Some(dd) = req.task_retention_days {
        lemma_decimal_round_trip_bounded(dd as nat, u64::MAX as nat);
    }
    if let Some(k) = req.task_retention_min_keep {
        lemma_decimal_round_trip_bounded(k as nat, u64::MAX as nat);
    }
}

proof fn lemma_settings_parts_keys(req: UpdateSettingsRequest)
    ensures
        writes_no(actions_b(req), "scan_interval_hours"@),
        writes_no(actions_c(req), "scan_interval_hours"@),
        writes_no(actions_d(req), "scan_interval_hours"@),
        writes_no(actions_e(req), "scan_interval_hours"@),
        writes_no(actions_c(req), "browser_worker_count"@),
        writes_no(actions_d(req), "browser_worker_count"@),
        writes_no(actions_e(req), "browser_worker_count"@),
        writes_no(actions_e(req), "task_retention_days"@),
{
    lemma_key_literals();
    let c = actions_c(req);
    assert forall|i: int| 0 <= i < c.len() implies key_of(#[trigger] c[i]) != Some("scan_interval_hours"@)
        && key_of(c[i]) != Some("browser_worker_count"@) by {
        lemma_c_keys(req, i);
    }
}

/// The lengths and first letters that tell the setting keys apart.
proof fn lemma_key_literals()
    ensures
        "scan_interval_hours"@.len() == 19,
        "scan_interval_hours"@[0] == 's',
        "queue_paused"@.len() == 12,
        "browser_worker_count"@.len() == 20,
        "preferred_language"@.len() == 18,
        "wizard_completed"@.len() == 16,
        "default_monitored"@.len() == 17,
        "auto_unmonitor_completed"@.len() == 24,
        "disable_chapter_upgrades"@.len() == 24,
        "download_mode"@.len() == 13,
        "task_retention_enabled"@.len() == 22,
        "task_retention_days"@.len() == 19,
        "task_retention_days"@[0] == 't',
        "task_retention_min_keep"@.len() == 23,
{
    reveal_strlit("scan_interval_hours");
    reveal_strlit("queue_paused");
    reveal_strlit("browser_worker_count");
    reveal_strlit("preferred_language");
    reveal_strlit("wizard_completed");
    reveal_strlit("default_monitored");
    reveal_strlit("auto_unmonitor_completed");
    reveal_strlit("disable_chapter_upgrades");
    reveal_strlit("download_mode");
    reveal_strlit("task_retention_enabled");
    reveal_strlit("task_retention_days");
    reveal_strlit("task_retention_min_keep");
}

proof fn lemma_c_keys(req: UpdateSettingsRequest, i: int)
    requires
        0 <= i < actions_c(req).len(),
    ensures
        key_of(actions_c(req)[i]) matches Some(k) && (k == "preferred_language"@ || k == "wizard_completed"@
            || k == "default_monitored"@ || k == "auto_unmonitor_completed"@ || k == "disable_chapter_upgrades"@
            || k == "download_mode"@ || k == "task_retention_enabled"@),
{
    let lp = match req.preferred_language {
        Some(l) => seq![ActionView::Write("preferred_language"@, trim_seq(l@))],
        None => Seq::<ActionView>::empty(),
    };
    let mp = match req.download_mode {
        Some(m) => seq![ActionView::Write("download_mode"@, download_mode_value(m@))],
        None => Seq::<ActionView>::empty(),
    };
    let parts = seq![
        lp,
        flag_write("wizard_completed"@, req.wizard_completed),
        flag_write("default_monitored"@, req.default_monitored),
        flag_write("auto_unmonitor_completed"@, req.auto_unmonitor_completed),
        flag_write("disable_chapter_upgrades"@, req.disable_chapter_upgrades),
        mp,
        flag_write("task_retention_enabled"@, req.task_retention_enabled)
    ];
    let c = actions_c(req);
    let s1 = lp;
    let s2 = s1 + parts[1];
    let s3 = s2 + parts[2];
    let s4 = s3 + parts[3];
    let s5 = s4 + parts[4];
    let s6 = s5 + parts[5];
    assert(c == s6 + parts[6]);
    if i < s1.len() {
        assert(c[i] == s1[i]);
    } else if i < s2.len() {
        assert(c[i] == parts[1][i - s1.len()]);
    } else if i < s3.len() {
        assert(c[i] == parts[2][i - s2.len()]);
    } else if i < s4.len() {
        assert(c[i] == parts[3][i - s3.len()]);
    } else if i < s5.len() {
        assert(c[i] == parts[4][i - s4.len()]);
    } else if i < s6.len() {
        assert(c[i] == parts[5][i - s5.len()]);
    } else {
        assert(c[i] == parts[6][i - s6.len()]);
    }
}

} // verus!
