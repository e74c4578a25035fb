//! Quota snapshots, and reading them from the events of a session log.
use vstd::prelude::*;

use crate::double::{
    complement_bits, is_percent, law_equal_doubles_have_equal_values, same_double, signed_units,
    Double,
};
use crate::fields::{number_at, text_at};
use crate::json::{parse_json, text_document, Json, JsonTree};
use crate::text::{append_decimal, append_text, decimal, same_text, texts};

verus! {

/// One quota window: how much of it is used and left, in percent, and when it starts anew.
#[derive(Debug, Clone, PartialEq)]
pub struct UsageWindow {
    pub label: String,
    pub used_percent: Double,
    pub remaining_percent: Double,
    pub resets_at: Option<i64>,
    pub window_minutes: Option<i64>,
}

/// What is known of the quota at one moment.
#[derive(Debug, Clone, PartialEq)]
pub struct QuotaSnapshot {
    pub status: String,
    pub source: String,
    pub plan_type: Option<String>,
    pub primary: Option<UsageWindow>,
    pub secondary: Option<UsageWindow>,
    pub reset_credits: Option<ResetCreditSnapshot>,
    pub observed_at: Option<String>,
    pub message: Option<String>,
}

/// What is known of the reset credits at one moment.
#[derive(Debug, Clone, PartialEq)]
pub struct ResetCreditSnapshot {
    pub status: String,
    pub count: Option<u64>,
    pub expires_at: Vec<String>,
    pub message: Option<String>,
}

/// The model of a quota window: percentages stand as bit patterns.
pub struct WindowView {
    pub label: Seq<char>,
    pub used: u64,
    pub remaining: u64,
    pub resets_at: Option<i64>,
    pub window_minutes: Option<i64>,
}

/// The model of the reset credits.
pub struct CreditsView {
    pub status: Seq<char>,
    pub count: Option<u64>,
    pub expires_at: Seq<Seq<char>>,
    pub message: Option<Seq<char>>,
}

/// The model of a quota snapshot.
pub struct SnapshotView {
    pub status: Seq<char>,
    pub source: Seq<char>,
    pub plan_type: Option<Seq<char>>,
    pub primary: Option<WindowView>,
    pub secondary: Option<WindowView>,
    pub reset_credits: Option<CreditsView>,
    pub observed_at: Option<Seq<char>>,
    pub message: Option<Seq<char>>,
}

/// The view of what may be absent.
pub open spec fn view_of<T: View>(value: Option<T>) -> Option<T::V> {
    match value {
        Some(v) => Some(v@),
        None => None,
    }
}

impl View for UsageWindow {
    type V = WindowView;

    open spec fn view(&self) -> WindowView {
        WindowView {
            label: self.label@,
            used: self.used_percent@,
            remaining: self.remaining_percent@,
            resets_at: self.resets_at,
            window_minutes: self.window_minutes,
        }
    }
}

impl View for ResetCreditSnapshot {
    type V = CreditsView;

    open spec fn view(&self) -> CreditsView {
        CreditsView {
            status: self.status@,
            count: self.count,
            expires_at: texts(self.expires_at@),
            message: view_of(self.message),
        }
    }
}

impl View for QuotaSnapshot {
    type V = SnapshotView;

    open spec fn view(&self) -> SnapshotView {
        SnapshotView {
            status: self.status@,
            source: self.source@,
            plan_type: view_of(self.plan_type),
            primary: view_of(self.primary),
            secondary: view_of(self.secondary),
            reset_credits: view_of(self.reset_credits),
            observed_at: view_of(self.observed_at),
            message: view_of(self.message),
        }
    }
}

impl WindowView {
    /// Both percentages lie within zero and one hundred, and one of them is what the other
    /// leaves of one hundred.
    pub open spec fn well_formed(self) -> bool {
        &&& is_percent(self.used)
        &&& is_percent(self.remaining)
        &&& self.used == complement_bits(self.remaining) || self.remaining == complement_bits(
            self.used,
        )
        &&& self.label == label_of(self.window_minutes)
    }

    /// Whether two windows are equal, their percentages compared as numbers.
    pub open spec fn same(self, other: WindowView) -> bool {
        &&& self.label == other.label
        &&& same_double(self.used, other.used)
        &&& same_double(self.remaining, other.remaining)
        &&& self.resets_at == other.resets_at
        &&& self.window_minutes == other.window_minutes
    }
}

/// The name shown for a window of this many minutes.
pub open spec fn label_of(minutes: Option<i64>) -> Seq<char> {
    match minutes {
        Some(value) => if value <= 360 {
            "5 小时额度"@
        } else if value <= 1_440 {
            "每日额度"@
        } else if value <= 10_080 {
            "7 天额度"@
        } else if value % 1_440 == 0 {
            decimal((value / 1_440) as nat) + " 天额度"@
        } else if value % 60 == 0 {
            decimal((value / 60) as nat) + " 小时额度"@
        } else {
            "额度窗口"@
        },
        None => "额度窗口"@,
    }
}

/// The name shown for a window of this many minutes.
pub fn window_label(minutes: Option<i64>) -> (label: String)
    ensures
        label@ == label_of(minutes),
        minutes matches Some(m) ==> {
            &&& m <= 360 ==> label@ == "5 小时额度"@
            &&& 360 < m <= 1_440 ==> label@ == "每日额度"@
            &&& 1_440 < m <= 10_080 ==> label@ == "7 天额度"@
        },
        minutes is None ==> label@ == "额度窗口"@,
{
    match minutes {
        Some(value) => {
            if value <= 360 {
                "5 小时额度".to_owned()
            } else if value <= 1_440 {
                "每日额度".to_owned()
            } else if value <= 10_080 {
                "7 天额度".to_owned()
            } else if value % 1_440 == 0 {
                let mut label: String = String::new();
                append_decimal(&mut label, (value / 1_440) as u64);
                append_text(&mut label, " 天额度");
                assert(Seq::<char>::empty() + decimal((value / 1_440) as nat) == decimal(
                    (value / 1_440) as nat,
                ));
                label
            } else if value % 60 == 0 {
                let mut label: String = String::new();
                append_decimal(&mut label, (value / 60) as u64);
                append_text(&mut label, " 小时额度");
                assert(Seq::<char>::empty() + decimal((value / 60) as nat) == decimal(
                    (value / 60) as nat,
                ));
                label
            } else {
                "额度窗口".to_owned()
            }
        },
        None => "额度窗口".to_owned(),
    }
}

/// The snapshot that says why no quota is known.
pub open spec fn missing_view(message: Seq<char>) -> SnapshotView {
    SnapshotView {
        status: "missing"@,
        source: "local"@,
        plan_type: None,
        primary: None,
        secondary: None,
        reset_credits: None,
        observed_at: None,
        message: Some(message),
    }
}

impl QuotaSnapshot {
    /// The snapshot that says why no quota is known.
    pub fn missing(message: &str) -> (snapshot: QuotaSnapshot)
        ensures
            snapshot@ == missing_view(message@),
            snapshot.status@ == "missing"@,
            snapshot.source@ == "local"@,
            snapshot.message is Some,
            snapshot.message->0@ == message@,
            snapshot.plan_type is None,
            snapshot.primary is None,
            snapshot.secondary is None,
            snapshot.reset_credits is None,
            snapshot.observed_at is None,
    {
        QuotaSnapshot {
            status: "missing".to_owned(),
            source: "local".to_owned(),
            plan_type: None,
            primary: None,
            secondary: None,
            reset_credits: None,
            observed_at: None,
            message: Some(message.to_owned()),
        }
    }
}

/// The nearest integer to the member `key`, where it is a number.
pub open spec fn integer_at(value: JsonTree, key: Seq<char>) -> Option<i64> {
    match number_at(value, key) {
        Some(number) => Some(number.rounded()),
        None => None,
    }
}

/// The window that a log event states: what is used is given in percent.
pub open spec fn logged_window(value: JsonTree) -> Option<WindowView> {
    match number_at(value, "used_percent"@) {
        Some(used) => Some(
            WindowView {
                label: label_of(integer_at(value, "window_minutes"@)),
                used: used.percent(false),
                remaining: complement_bits(used.percent(false)),
                resets_at: integer_at(value, "resets_at"@),
                window_minutes: integer_at(value, "window_minutes"@),
            },
        ),
        None => None,
    }
}

/// The window that the member `key` of a log event states.
pub open spec fn logged_window_at(value: JsonTree, key: Seq<char>) -> Option<WindowView> {
    match value.field(key) {
        Some(found) => logged_window(found),
        None => None,
    }
}

/// The rate limits of a log event, where it is one that reports them.
pub open spec fn event_limits(event: JsonTree) -> Option<JsonTree> {
    match event.field("payload"@) {
        Some(payload) => if text_at(event, "type"@) == Some("event_msg"@) && text_at(
            payload,
            "type"@,
        ) == Some("token_count"@) {
            match payload.field("rate_limits"@) {
                Some(limits) => if limits is Object {
                    Some(limits)
                } else {
                    None
                },
                None => None,
            }
        } else {
            None
        },
        None => None,
    }
}

/// The snapshot that a log event states, where it states one.
pub open spec fn event_view(event: JsonTree) -> Option<SnapshotView> {
    match event_limits(event) {
        Some(limits) => {
            let primary = logged_window_at(limits, "primary"@);
            let secondary = logged_window_at(limits, "secondary"@);
            if primary is None && secondary is None {
                None
            } else {
                Some(
                    SnapshotView {
                        status: "ok"@,
                        source: "local"@,
                        plan_type: text_at(limits, "plan_type"@),
                        primary,
                        secondary,
                        reset_credits: None,
                        observed_at: text_at(event, "timestamp"@),
                        message: None,
                    },
                )
            }
        },
        None => None,
    }
}

/// The snapshot that a line of a log states, where it states one.
pub open spec fn line_view(line: Seq<char>) -> Option<SnapshotView> {
    match text_document(line) {
        Some(event) => event_view(event),
        None => None,
    }
}

/// The text of the member `key`.
pub fn text_field(value: &Json, key: &str) -> (text: Option<String>)
    ensures
        view_of(text) == text_at(value@, key@),
{
    match value.get(key) {
        Some(found) => match found.as_str() {
            Some(text) => Some(text.to_owned()),
            None => None,
        },
        None => None,
    }
}

/// Whether the member `key` is the text `expected`.
fn field_is(value: &Json, key: &str, expected: &str) -> (answer: bool)
    ensures
        answer == (text_at(value@, key@) == Some(expected@)),
{
    match value.get(key) {
        Some(found) => match found.as_str() {
            Some(text) => same_text(text, expected),
            None => false,
        },
        None => false,
    }
}

/// The nearest integer to a number.
pub fn number_as_i64(value: &Json) -> (integer: Option<i64>)
    ensures
        match value@.number() {
            Some(number) => integer == Some(number.rounded()),
            None => integer is None,
        },
{
    match value.as_number() {
        Some(number) => Some(number.round()),
        None => None,
    }
}

/// The nearest integer to the member `key`, where it is a number.
fn integer_field(value: &Json, key: &str) -> (integer: Option<i64>)
    ensures
        integer == integer_at(value@, key@),
{
    match value.get(key) {
        Some(found) => number_as_i64(found),
        None => None,
    }
}

/// The window that a log event states.
pub fn parse_window(value: &Json) -> (window: Option<UsageWindow>)
    ensures
        view_of(window) == logged_window(value@),
        window matches Some(w) ==> w@.well_formed(),
        window is Some <==> number_at(value@, "used_percent"@) is Some,
        window matches Some(w) ==> {
            &&& w.used_percent@ == number_at(value@, "used_percent"@)->0.percent(false)
            &&& w.remaining_percent@ == complement_bits(w.used_percent@)
            &&& match number_at(value@, "resets_at"@) {
                Some(number) => w.resets_at == Some(number.rounded()),
                None => w.resets_at is None,
            }
            &&& match number_at(value@, "window_minutes"@) {
                Some(number) => w.window_minutes == Some(number.rounded()),
                None => w.window_minutes is None,
            }
        },
{
    let number = match value.get("used_percent") {
        Some(found) => match found.as_number() {
            Some(number) => number,
            None => {
                return None;
            },
        },
        None => {
            return None;
        },
    };
    let used_percent: Double = number.percent(false);
    let remaining_percent: Double = used_percent.complement();
    let window_minutes: Option<i64> = integer_field(value, "window_minutes");
    let resets_at: Option<i64> = integer_field(value, "resets_at");
    Some(
        UsageWindow {
            label: window_label(window_minutes),
            used_percent,
            remaining_percent,
            resets_at,
            window_minutes,
        },
    )
}

/// The window that the member `key` of a log event states.
fn window_field(value: &Json, key: &str) -> (window: Option<UsageWindow>)
    ensures
        view_of(window) == logged_window_at(value@, key@),
        window matches Some(w) ==> w@.well_formed(),
{
    match value.get(key) {
        Some(found) => parse_window(found),
        None => None,
    }
}

/// The snapshot that a log event states, where it states one.
pub fn event_snapshot(event: &Json) -> (snapshot: Option<QuotaSnapshot>)
    ensures
        view_of(snapshot) == event_view(event@),
        snapshot matches Some(s) ==> {
            &&& s.primary is Some || s.secondary is Some
            &&& s.primary matches Some(w) ==> w@.well_formed()
            &&& s.secondary matches Some(w) ==> w@.well_formed()
        },
{
    if !field_is(event, "type", "event_msg") {
        return None;
    }
    let payload: &Json = match event.get("payload") {
        Some(payload) => payload,
        None => {
            return None;
        },
    };
    if !field_is(payload, "type", "token_count") {
        return None;
    }
    let limits: &Json = match payload.get("rate_limits") {
        Some(limits) => limits,
        None => {
            return None;
        },
    };
    if !limits.is_object() {
        return None;
    }
    let primary: Option<UsageWindow> = window_field(limits, "primary");
    let secondary: Option<UsageWindow> = window_field(limits, "secondary");
    if primary.is_none() && secondary.is_none() {
        return None;
    }
    Some(
        QuotaSnapshot {
            status: "ok".to_owned(),
            source: "local".to_owned(),
            plan_type: text_field(limits, "plan_type"),
            primary,
            secondary,
            reset_credits: None,
            observed_at: text_field(event, "timestamp"),
            message: None,
        },
    )
}

/// The snapshot that a line of a log states, where it states one.
pub fn parse_event_line(line: &str) -> (snapshot: Option<QuotaSnapshot>)
    ensures
        view_of(snapshot) == line_view(line@),
        snapshot matches Some(s) ==> {
            &&& s.primary is Some || s.secondary is Some
            &&& s.primary matches Some(w) ==> w@.well_formed()
            &&& s.secondary matches Some(w) ==> w@.well_formed()
        },
{
    match parse_json(line) {
        Some(event) => event_snapshot(&event),
        None => None,
    }
}

/// The model of a window has all that the window has.
pub proof fn law_window_model_holds_all(window: UsageWindow)
    ensures
        window@.label == window.label@,
        window@.used == window.used_percent@,
        window@.remaining == window.remaining_percent@,
        window@.resets_at == window.resets_at,
        window@.window_minutes == window.window_minutes,
{
}

/// The model of the reset credits has all that they have.
pub proof fn law_credits_model_holds_all(credits: ResetCreditSnapshot, i: int)
    ensures
        credits@.status == credits.status@,
        credits@.count == credits.count,
        credits@.expires_at.len() == credits.expires_at@.len(),
        0 <= i < credits.expires_at@.len() ==> credits@.expires_at[i] == credits.expires_at@[i]@,
        credits.message is Some ==> credits@.message == Some(credits.message->0@),
        credits.message is None ==> credits@.message is None,
{
}

/// The model of a snapshot has all that the snapshot has.
pub proof fn law_snapshot_model_holds_all(snapshot: QuotaSnapshot)
    ensures
        snapshot@.status == snapshot.status@,
        snapshot@.source == snapshot.source@,
        snapshot.plan_type is Some ==> snapshot@.plan_type == Some(snapshot.plan_type->0@),
        snapshot.plan_type is None ==> snapshot@.plan_type is None,
        snapshot.primary is Some ==> snapshot@.primary == Some(snapshot.primary->0@),
        snapshot.primary is None ==> snapshot@.primary is None,
        snapshot.secondary is Some ==> snapshot@.secondary == Some(snapshot.secondary->0@),
        snapshot.secondary is None ==> snapshot@.secondary is None,
        snapshot.reset_credits is Some ==> snapshot@.reset_credits == Some(
            snapshot.reset_credits->0@,
        ),
        snapshot.reset_credits is None ==> snapshot@.reset_credits is None,
        snapshot.observed_at is Some ==> snapshot@.observed_at == Some(snapshot.observed_at->0@),
        snapshot.observed_at is None ==> snapshot@.observed_at is None,
        snapshot.message is Some ==> snapshot@.message == Some(snapshot.message->0@),
        snapshot.message is None ==> snapshot@.message is None,
{
}

/// Windows count as equal just where their names, the values of their percentages, their reset
/// times and their lengths are.
pub proof fn law_equal_windows_agree_in_all(a: WindowView, b: WindowView)
    ensures
        a.same(b) <==> a.label == b.label && signed_units(a.used) == signed_units(b.used)
            && signed_units(a.remaining) == signed_units(b.remaining) && a.resets_at == b.resets_at
            && a.window_minutes == b.window_minutes,
{
    law_equal_doubles_have_equal_values(a.used, b.used);
    law_equal_doubles_have_equal_values(a.remaining, b.remaining);
}

/// Windows longer than a week go by their days where they are whole days, by their hours where
/// they are whole hours, and otherwise by no length; shorter ones by the window that they stand
/// for.
pub proof fn law_labels_tell_the_length(minutes: i64, count: nat)
    ensures
        minutes <= 360 ==> label_of(Some(minutes)) == "5 小时额度"@,
        360 < minutes <= 1_440 ==> label_of(Some(minutes)) == "每日额度"@,
        1_440 < minutes <= 10_080 ==> label_of(Some(minutes)) == "7 天额度"@,
        minutes == 1_440 * count && count > 7 ==> label_of(Some(minutes)) == decimal(count)
            + " 天额度"@,
        minutes == 60 * count && count > 168 && count % 24 != 0 ==> label_of(Some(minutes))
            == decimal(count) + " 小时额度"@,
        minutes > 10_080 && minutes % 60 != 0 ==> label_of(Some(minutes)) == "额度窗口"@,
        label_of(None) == "额度窗口"@,
{
}

/// The window of a log event comes from its own object: the use in percent, what that leaves, and
/// the length and the reset time as the nearest integers. Without a number for the use there is no
/// window.
pub proof fn law_logged_window_comes_from_its_object(value: JsonTree)
    ensures
        (match value.field("used_percent"@) {
            Some(JsonTree::Number(used)) => logged_window(value) matches Some(w) && w.used
                == used.percent(false) && w.remaining == complement_bits(w.used) && w.label
                == label_of(w.window_minutes),
            _ => logged_window(value) is None,
        }),
        logged_window(value) matches Some(w) ==> (match value.field("resets_at"@) {
            Some(JsonTree::Number(number)) => w.resets_at == Some(number.rounded()),
            _ => w.resets_at is None,
        }),
        logged_window(value) matches Some(w) ==> (match value.field("window_minutes"@) {
            Some(JsonTree::Number(number)) => w.window_minutes == Some(number.rounded()),
            _ => w.window_minutes is None,
        }),
{
}

/// Which lines of a log are quota events: messages of the type `event_msg` with a payload of the
/// type `token_count` whose rate limits are an object with a window that reads.
pub proof fn law_quota_events(event: JsonTree, payload: JsonTree, limits: JsonTree)
    requires
        event.field("payload"@) == Some(payload),
        payload.field("rate_limits"@) == Some(limits),
    ensures
        event_view(event) is Some <==> {
            &&& event.field("type"@) == Some(JsonTree::Text("event_msg"@))
            &&& payload.field("type"@) == Some(JsonTree::Text("token_count"@))
            &&& limits is Object
            &&& {
                ||| limits.field("primary"@) matches Some(window) && logged_window(window) is Some
                ||| limits.field("secondary"@) matches Some(window) && logged_window(window) is Some
            }
        },
{
}

/// An event without a payload or without rate limits is no quota event.
pub proof fn law_events_without_limits(event: JsonTree)
    ensures
        event.field("payload"@) is None ==> event_view(event) is None,
        event.field("payload"@) matches Some(payload) ==> (payload.field("rate_limits"@) is None
            ==> event_view(event) is None),
{
}

/// A quota event states each window as its own member gives it, the plan as its limits give it and
/// the time as the event gives it.
pub proof fn law_event_states_its_members(event: JsonTree, payload: JsonTree, limits: JsonTree)
    requires
        event.field("payload"@) == Some(payload),
        payload.field("rate_limits"@) == Some(limits),
        event_view(event) is Some,
    ensures
        (match limits.field("primary"@) {
            Some(window) => event_view(event)->0.primary == logged_window(window),
            None => event_view(event)->0.primary is None,
        }),
        (match limits.field("secondary"@) {
            Some(window) => event_view(event)->0.secondary == logged_window(window),
            None => event_view(event)->0.secondary is None,
        }),
        (match limits.field("plan_type"@) {
            Some(JsonTree::Text(plan)) => event_view(event)->0.plan_type == Some(plan),
            _ => event_view(event)->0.plan_type is None,
        }),
        (match event.field("timestamp"@) {
            Some(JsonTree::Text(time)) => event_view(event)->0.observed_at == Some(time),
            _ => event_view(event)->0.observed_at is None,
        }),
        event_view(event)->0.status == "ok"@,
        event_view(event)->0.source == "local"@,
        event_view(event)->0.reset_credits is None,
        event_view(event)->0.message is None,
{
}

/// The windows of an event stand alone: two events with the same secondary member have the same
/// secondary window whatever their primary members are, and the other way round.
pub proof fn law_windows_of_an_event_stand_alone(
    a: JsonTree,
    b: JsonTree,
    a_payload: JsonTree,
    b_payload: JsonTree,
    a_limits: JsonTree,
    b_limits: JsonTree,
)
    requires
        a.field("payload"@) == Some(a_payload),
        b.field("payload"@) == Some(b_payload),
        a_payload.field("rate_limits"@) == Some(a_limits),
        b_payload.field("rate_limits"@) == Some(b_limits),
        event_view(a) is Some,
        event_view(b) is Some,
    ensures
        a_limits.field("secondary"@) == b_limits.field("secondary"@) ==> event_view(a)->0.secondary
            == event_view(b)->0.secondary,
        a_limits.field("primary"@) == b_limits.field("primary"@) ==> event_view(a)->0.primary
            == event_view(b)->0.primary,
{
}

/// A line states what its document states, and nothing where it is no document.
pub proof fn law_line_states_its_document(line: Seq<char>)
    ensures
        text_document(line) matches Some(event) ==> line_view(line) == event_view(event),
        text_document(line) is None ==> line_view(line) is None,
{
}

/// The snapshot that says why no quota is known has its reason and nothing else.
pub proof fn law_missing_snapshot_has_its_reason_alone(message: Seq<char>)
    ensures
        missing_view(message).status == "missing"@,
        missing_view(message).source == "local"@,
        missing_view(message).message == Some(message),
        missing_view(message).plan_type is None,
        missing_view(message).primary is None,
        missing_view(message).secondary is None,
        missing_view(message).reset_credits is None,
        missing_view(message).observed_at is None,
{
}

} // verus!
