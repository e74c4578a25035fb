//! Reading the answer of the online quota service.
//!
//! The service has used many names for the same member and many shapes for the same list, so
//! every member is looked up under all its names, in order of preference.
use vstd::prelude::*;

use crate::credits::{meaningful_credits_view, parse_meaningful_reset_credit_response};
use crate::double::{complement_bits, is_percent, signed_units, Double};
use crate::fields::{
    direct_u64, first_from, first_of, lemma_first_from, names, number_with_key, pick_string, picked_epoch,
    picked_number, picked_text, picked_unsigned, timestamp_epoch,
};
use crate::json::{trees, Json, JsonNumber, JsonTree, NumberTree};
use crate::quota::{
    label_of, law_equal_windows_agree_in_all, view_of, window_label, QuotaSnapshot, ResetCreditSnapshot, SnapshotView,
    UsageWindow, WindowView,
};
use crate::text::{
    all_digits, contains_text, holds_text, is_digit, lowered, lowered_text, same_text,
};

verus! {

/// The names of the member that says what is left of a window.
pub open spec fn remaining_names() -> Seq<Seq<char>> {
    seq![
        "remaining_percent"@,
        "remainingPercent"@,
        "remaining_pct"@,
        "remainingPct"@,
        "remaining_ratio"@,
        "remainingRatio"@,
        "remaining"@,
    ]
}

/// The names of the member that says what is used of a window.
pub open spec fn used_names() -> Seq<Seq<char>> {
    seq![
        "used_percent"@,
        "usedPercent"@,
        "used_pct"@,
        "usedPct"@,
        "used_ratio"@,
        "usedRatio"@,
        "utilization"@,
        "used"@,
    ]
}

/// The names of the member that gives the length of a window in minutes.
pub open spec fn minute_names() -> Seq<Seq<char>> {
    seq!["window_minutes"@, "windowMinutes"@, "duration_minutes"@, "durationMinutes"@]
}

/// The names of the member that gives the length of a window in seconds.
pub open spec fn second_names() -> Seq<Seq<char>> {
    seq![
        "limit_window_seconds"@,
        "limitWindowSeconds"@,
        "window_seconds"@,
        "windowSeconds"@,
        "duration_seconds"@,
        "durationSeconds"@,
        "period_seconds"@,
        "periodSeconds"@,
    ]
}

/// The names of the member that says when a window starts anew.
pub open spec fn reset_names() -> Seq<Seq<char>> {
    seq!["reset_at"@, "resetAt"@, "resets_at"@, "resetsAt"@, "reset_time"@, "resetTime"@]
}

/// The names of the lists of windows.
pub open spec fn list_names() -> Seq<Seq<char>> {
    seq!["windows"@, "limit_windows"@, "limitWindows"@, "limits"@, "buckets"@]
}

/// The names of the member by which a window in a list goes.
pub open spec fn title_names() -> Seq<Seq<char>> {
    seq!["name"@, "type"@, "id"@, "window"@, "label"@]
}

/// The names of the member that gives the plan.
pub open spec fn plan_names() -> Seq<Seq<char>> {
    seq!["plan_type"@, "planType"@]
}

/// The names of the short window.
pub open spec fn short_names() -> Seq<Seq<char>> {
    seq![
        "primary_window"@,
        "primaryWindow"@,
        "short_window"@,
        "shortWindow"@,
        "five_hour_window"@,
        "fiveHourWindow"@,
        "5h"@,
        "primary"@,
    ]
}

/// The names of the weekly window.
pub open spec fn weekly_names() -> Seq<Seq<char>> {
    seq![
        "secondary_window"@,
        "secondaryWindow"@,
        "weekly_window"@,
        "weeklyWindow"@,
        "week_window"@,
        "weekWindow"@,
        "weekly"@,
        "secondary"@,
        "primary_window"@,
        "primaryWindow"@,
        "primary"@,
    ]
}

/// The names of members that always hold a ratio.
pub open spec fn is_ratio_name(key: Seq<char>) -> bool {
    ||| key == "remaining_ratio"@
    ||| key == "remainingRatio"@
    ||| key == "used_ratio"@
    ||| key == "usedRatio"@
    ||| key == "utilization"@
}

/// Whether a number under this name is a ratio of one hundred percent: by its name, or
/// because it is at most one and its name does not speak of percent.
pub open spec fn is_ratio(key: Seq<char>, number: NumberTree) -> bool {
    ||| is_ratio_name(key)
    ||| !holds_text(key, "percent"@) && !holds_text(key, "pct"@) && number.at_most_one()
}

/// The first number under these names, in percent.
pub open spec fn percent_under(value: JsonTree, keys: Seq<Seq<char>>) -> Option<u64> {
    match picked_number(value, keys) {
        Some((i, number)) => Some(number.percent(is_ratio(keys[i], number))),
        None => None,
    }
}

/// What is left of a window, in percent: as stated, and otherwise what the stated use leaves.
pub open spec fn remaining_in(value: JsonTree) -> Option<u64> {
    match percent_under(value, remaining_names()) {
        Some(remaining) => Some(remaining),
        None => match percent_under(value, used_names()) {
            Some(used) => Some(complement_bits(used)),
            None => None,
        },
    }
}

/// The length of a window in minutes: as stated, and otherwise from its seconds.
pub open spec fn minutes_in(value: JsonTree) -> Option<i64> {
    match picked_unsigned(value, minute_names()) {
        Some(minutes) => if minutes <= i64::MAX {
            Some(minutes as i64)
        } else {
            minutes_from_seconds(value)
        },
        None => minutes_from_seconds(value),
    }
}

/// The length of a window in whole minutes, from its seconds.
pub open spec fn minutes_from_seconds(value: JsonTree) -> Option<i64> {
    match picked_unsigned(value, second_names()) {
        Some(seconds) => Some((seconds / 60) as i64),
        None => None,
    }
}

/// The window that an object of the answer states, where it states how much is left or used.
pub open spec fn online_window(value: JsonTree) -> Option<WindowView> {
    match remaining_in(value) {
        Some(remaining) => Some(
            WindowView {
                label: label_of(minutes_in(value)),
                used: complement_bits(remaining),
                remaining,
                resets_at: picked_epoch(value, reset_names()),
                window_minutes: minutes_in(value),
            },
        ),
        None => None,
    }
}

/// The length of a window in seconds; zero where it is not known.
pub open spec fn seconds_of(minutes: Option<i64>) -> int {
    match minutes {
        Some(m) => if m < 0 {
            0
        } else if m * 60 > u64::MAX {
            u64::MAX as int
        } else {
            m * 60
        },
        None => 0,
    }
}

/// Whether a length is the expected one, give or take a minute.
pub open spec fn is_close(actual: int, expected: int) -> bool {
    -60 <= actual - expected <= 60
}

/// The member `key` where it states a window of the expected length or of no known length.
pub open spec fn named_window(limits: JsonTree, key: Seq<char>, expected: u64) -> Option<JsonTree> {
    match limits.field(key) {
        Some(value) => match online_window(value) {
            Some(window) => {
                let actual = seconds_of(window.window_minutes);
                if actual == 0 || is_close(actual, expected as int) {
                    Some(value)
                } else {
                    None
                }
            },
            None => None,
        },
        None => None,
    }
}

/// Whether a window in a list goes by a title that holds one of these names, whatever the
/// case of their letters.
pub open spec fn title_matches(item: JsonTree, keys: Seq<Seq<char>>) -> bool {
    match picked_text(item, title_names()) {
        Some(title) => exists|i: int|
            0 <= i < keys.len() && holds_text(lowered(title), lowered(#[trigger] keys[i])),
        None => false,
    }
}

/// Whether an item of a list states a window of the expected length or with a fitting title.
pub open spec fn item_matches(item: JsonTree, keys: Seq<Seq<char>>, expected: u64) -> bool {
    match online_window(item) {
        Some(window) => {
            let actual = seconds_of(window.window_minutes);
            ||| actual > 0 && is_close(actual, expected as int)
            ||| title_matches(item, keys)
        },
        None => false,
    }
}

/// The first item that matches, from the place `i` on.
pub open spec fn first_item(
    items: Seq<JsonTree>,
    keys: Seq<Seq<char>>,
    expected: u64,
    i: int,
) -> Option<JsonTree>
    decreases items.len() - i,
{
    if i >= items.len() {
        None
    } else if item_matches(items[i], keys, expected) {
        Some(items[i])
    } else {
        first_item(items, keys, expected, i + 1)
    }
}

/// The first item that matches in the list under the name `list`.
pub open spec fn listed_window(
    limits: JsonTree,
    list: Seq<char>,
    keys: Seq<Seq<char>>,
    expected: u64,
) -> Option<JsonTree> {
    match limits.field(list) {
        Some(found) => match found.items() {
            Some(items) => first_item(items, keys, expected, 0),
            None => None,
        },
        None => None,
    }
}

/// The window with one of these names and the expected length: a member of its own, and
/// otherwise an item of one of the lists.
pub open spec fn found_window(
    limits: JsonTree,
    keys: Seq<Seq<char>>,
    expected: u64,
) -> Option<JsonTree> {
    match first_of(keys, |k: Seq<char>| named_window(limits, k, expected)) {
        Some(value) => Some(value),
        None => first_of(
            list_names(),
            |list: Seq<char>| listed_window(limits, list, keys, expected),
        ),
    }
}

/// Whether a number under this name is a ratio of one hundred percent.
pub fn scale_ratio_field(key: &str, number: &JsonNumber) -> (answer: bool)
    ensures
        answer == is_ratio(key@, number@),
{
    same_text(key, "remaining_ratio") || same_text(key, "remainingRatio") || same_text(
        key,
        "used_ratio",
    ) || same_text(key, "usedRatio") || same_text(key, "utilization") || (!contains_text(
        key,
        "percent",
    ) && !contains_text(key, "pct") && number.at_most_one())
}

/// The first number under these names, in percent.
fn percent_field(value: &Json, keys: &[&str]) -> (percent: Option<Double>)
    ensures
        view_of(percent) == percent_under(value@, names(keys@)),
        percent matches Some(p) ==> is_percent(p@),
{
    match number_with_key(value, keys) {
        Some((i, number)) => {
            assert(names(keys@)[i as int] == keys@[i as int]@);
            let hundredfold: bool = scale_ratio_field(keys[i], &number);
            Some(number.percent(hundredfold))
        },
        None => None,
    }
}

/// What is left of a window, in percent.
fn remaining_field(value: &Json) -> (remaining: Option<Double>)
    ensures
        view_of(remaining) == remaining_in(value@),
        remaining matches Some(p) ==> is_percent(p@),
{
    let remaining_keys: [&str; 7] = [
        "remaining_percent",
        "remainingPercent",
        "remaining_pct",
        "remainingPct",
        "remaining_ratio",
        "remainingRatio",
        "remaining",
    ];
    assert(names(remaining_keys@) == remaining_names());
    let used_keys: [&str; 8] = [
        "used_percent",
        "usedPercent",
        "used_pct",
        "usedPct",
        "used_ratio",
        "usedRatio",
        "utilization",
        "used",
    ];
    assert(names(used_keys@) == used_names());
    match percent_field(value, &remaining_keys) {
        Some(remaining) => Some(remaining),
        None => match percent_field(value, &used_keys) {
            Some(used) => Some(used.complement()),
            None => None,
        },
    }
}

/// The length of a window in minutes.
fn minutes_field(value: &Json) -> (minutes: Option<i64>)
    ensures
        minutes == minutes_in(value@),
{
    let minute_keys: [&str; 4] = [
        "window_minutes",
        "windowMinutes",
        "duration_minutes",
        "durationMinutes",
    ];
    assert(names(minute_keys@) == minute_names());
    if let Some(minutes) = direct_u64(value, &minute_keys) {
        if minutes <= i64::MAX as u64 {
            return Some(minutes as i64);
        }
    }
    let second_keys: [&str; 8] = [
        "limit_window_seconds",
        "limitWindowSeconds",
        "window_seconds",
        "windowSeconds",
        "duration_seconds",
        "durationSeconds",
        "period_seconds",
        "periodSeconds",
    ];
    assert(names(second_keys@) == second_names());
    match direct_u64(value, &second_keys) {
        Some(seconds) => Some((seconds / 60) as i64),
        None => None,
    }
}

/// The window that an object of the answer states, where it states how much is left or used.
pub fn parse_online_window(value: Option<&Json>) -> (window: Option<UsageWindow>)
    ensures
        match value {
            Some(json) => view_of(window) == online_window(json@),
            None => window is None,
        },
        window matches Some(w) ==> w@.well_formed(),
{
    let value: &Json = match value {
        Some(value) => value,
        None => {
            return None;
        },
    };
    let remaining_percent: Double = match remaining_field(value) {
        Some(remaining) => remaining,
        None => {
            return None;
        },
    };
    let window_minutes: Option<i64> = minutes_field(value);
    let reset_keys: [&str; 6] = [
        "reset_at",
        "resetAt",
        "resets_at",
        "resetsAt",
        "reset_time",
        "resetTime",
    ];
    assert(names(reset_keys@) == reset_names());
    let resets_at: Option<i64> = timestamp_epoch(value, &reset_keys);
    Some(
        UsageWindow {
            label: window_label(window_minutes),
            used_percent: remaining_percent.complement(),
            remaining_percent,
            resets_at,
            window_minutes,
        },
    )
}

/// The length of a window in seconds; zero where it is not known.
fn window_seconds(minutes: Option<i64>) -> (seconds: u64)
    ensures
        seconds == seconds_of(minutes),
{
    match minutes {
        Some(m) => if m < 0 {
            0
        } else {
            match (m as u64).checked_mul(60) {
                Some(seconds) => seconds,
                None => u64::MAX,
            }
        },
        None => 0,
    }
}

/// Whether a length is the expected one, give or take a minute.
fn close_to(actual: u64, expected: u64) -> (answer: bool)
    ensures
        answer == is_close(actual as int, expected as int),
{
    if actual >= expected {
        actual - expected <= 60
    } else {
        expected - actual <= 60
    }
}

/// Whether a window in a list goes by a title that holds one of these names.
fn has_title(item: &Json, keys: &[&str]) -> (answer: bool)
    ensures
        answer == title_matches(item@, names(keys@)),
{
    let title_keys: [&str; 5] = ["name", "type", "id", "window", "label"];
    assert(names(title_keys@) == title_names());
    let stated: &str = match pick_string(item, &title_keys) {
        Some(stated) => stated,
        None => {
            return false;
        },
    };
    let title: String = lowered_text(stated);
    let mut i: usize = 0;
    while i < keys.len()
        invariant
            i <= keys@.len(),
            picked_text(item@, title_names()) == Some(stated@),
            title@ == lowered(stated@),
            forall|j: int|
                0 <= j < i ==> !holds_text(title@, lowered(#[trigger] names(keys@)[j])),
        decreases keys@.len() - i,
    {
        assert(names(keys@)[i as int] == keys@[i as int]@);
        let candidate: String = lowered_text(keys[i]);
        if contains_text(title.as_str(), candidate.as_str()) {
            return true;
        }
        i = i + 1;
    }
    false
}

/// Whether an item of a list states a window of the expected length or with a fitting title.
fn matches_item(item: &Json, keys: &[&str], expected: u64) -> (answer: bool)
    ensures
        answer == item_matches(item@, names(keys@), expected),
{
    match parse_online_window(Some(item)) {
        Some(window) => {
            let actual: u64 = window_seconds(window.window_minutes);
            (actual > 0 && close_to(actual, expected)) || has_title(item, keys)
        },
        None => false,
    }
}

/// The first item that matches in the list under the name `list`.
fn find_listed<'a>(limits: &'a Json, list: &str, keys: &[&str], expected: u64) -> (found: Option<
    &'a Json,
>)
    ensures
        match found {
            Some(item) => listed_window(limits@, list@, names(keys@), expected) == Some(item@),
            None => listed_window(limits@, list@, names(keys@), expected) is None,
        },
{
    let items: &Vec<Json> = match limits.get(list) {
        Some(value) => match value.as_array() {
            Some(items) => items,
            None => {
                return None;
            },
        },
        None => {
            return None;
        },
    };
    let ghost all: Seq<JsonTree> = trees(items@);
    let mut i: usize = 0;
    while i < items.len()
        invariant
            i <= items@.len(),
            all == trees(items@),
            listed_window(limits@, list@, names(keys@), expected) == first_item(
                all,
                names(keys@),
                expected,
                i as int,
            ),
        decreases items@.len() - i,
    {
        assert(all[i as int] == items@[i as int]@);
        if matches_item(&items[i], keys, expected) {
            return Some(&items[i]);
        }
        i = i + 1;
    }
    None
}

/// The member `key` where it states a window of the expected length or of no known length.
fn find_named<'a>(limits: &'a Json, key: &str, expected: u64) -> (found: Option<&'a Json>)
    ensures
        match found {
            Some(value) => named_window(limits@, key@, expected) == Some(value@),
            None => named_window(limits@, key@, expected) is None,
        },
{
    let value: &Json = match limits.get(key) {
        Some(value) => value,
        None => {
            return None;
        },
    };
    match parse_online_window(Some(value)) {
        Some(window) => {
            let actual: u64 = window_seconds(window.window_minutes);
            if actual == 0 || close_to(actual, expected) {
                Some(value)
            } else {
                None
            }
        },
        None => None,
    }
}

/// The window with one of these names and the expected length.
pub fn find_online_window<'a>(
    rate_limit: &'a Json,
    keys: &[&str],
    expected_seconds: u64,
) -> (found: Option<&'a Json>)
    ensures
        match found {
            Some(value) => found_window(rate_limit@, names(keys@), expected_seconds) == Some(
                value@,
            ),
            None => found_window(rate_limit@, names(keys@), expected_seconds) is None,
        },
{
    let ghost read = |k: Seq<char>| named_window(rate_limit@, k, expected_seconds);
    let mut i: usize = 0;
    while i < keys.len()
        invariant
            i <= keys@.len(),
            read == (|k: Seq<char>| named_window(rate_limit@, k, expected_seconds)),
            first_from(names(keys@), read, 0) == first_from(names(keys@), read, i as int),
        decreases keys@.len() - i,
    {
        assert(names(keys@)[i as int] == keys@[i as int]@);
        if let Some(value) = find_named(rate_limit, keys[i], expected_seconds) {
            return Some(value);
        }
        i = i + 1;
    }
    let lists: [&str; 5] = ["windows", "limit_windows", "limitWindows", "limits", "buckets"];
    assert(names(lists@) == list_names());
    let ghost look = |list: Seq<char>|
        listed_window(rate_limit@, list, names(keys@), expected_seconds);
    let mut n: usize = 0;
    while n < 5
        invariant
            n <= 5,
            lists@.len() == 5,
            names(lists@) == list_names(),
            read == (|k: Seq<char>| named_window(rate_limit@, k, expected_seconds)),
            first_of(names(keys@), read) is None,
            look == (|list: Seq<char>|
                listed_window(rate_limit@, list, names(keys@), expected_seconds)),
            first_from(list_names(), look, 0) == first_from(list_names(), look, n as int),
        decreases 5 - n,
    {
        assert(names(lists@)[n as int] == lists@[n as int]@);
        if let Some(item) = find_listed(rate_limit, lists[n], keys, expected_seconds) {
            return Some(item);
        }
        n = n + 1;
    }
    None
}

/// The part of the answer that holds the windows: a member of its own, and otherwise all.
pub open spec fn limits_in(value: JsonTree) -> JsonTree {
    match value.field("rate_limit"@) {
        Some(limits) => limits,
        None => match value.field("rateLimit"@) {
            Some(limits) => limits,
            None => value,
        },
    }
}

/// The window with one of these names and the expected length, as it reads.
pub open spec fn read_window(
    limits: JsonTree,
    keys: Seq<Seq<char>>,
    expected: u64,
) -> Option<WindowView> {
    match found_window(limits, keys, expected) {
        Some(value) => online_window(value),
        None => None,
    }
}

/// Whether two windows are the same or both absent.
pub open spec fn same_windows(a: Option<WindowView>, b: Option<WindowView>) -> bool {
    match (a, b) {
        (Some(x), Some(y)) => x.same(y),
        (None, None) => true,
        _ => false,
    }
}

/// The primary and the secondary window, given the short and the weekly one: a weekly window
/// that is the short one over again is dropped, and one that stands alone comes first.
pub open spec fn arranged(short: Option<WindowView>, weekly: Option<WindowView>) -> (
    Option<WindowView>,
    Option<WindowView>,
) {
    if short is None {
        (weekly, None)
    } else if same_windows(short, weekly) {
        (short, None)
    } else {
        (short, weekly)
    }
}

/// The plan: as the answer gives it, and otherwise as its limits do.
pub open spec fn plan_in(value: JsonTree) -> Option<Seq<char>> {
    match picked_text(value, plan_names()) {
        Some(plan) => Some(plan),
        None => picked_text(limits_in(value), plan_names()),
    }
}

/// The part of the answer that holds the reset credits.
pub open spec fn credits_in(value: JsonTree) -> Option<JsonTree> {
    match credits_member(value) {
        Some(credits) => Some(credits),
        None => credits_member(limits_in(value)),
    }
}

/// The member that holds the reset credits.
pub open spec fn credits_member(value: JsonTree) -> Option<JsonTree> {
    match value.field("rate_limit_reset_credits"@) {
        Some(credits) => Some(credits),
        None => value.field("rateLimitResetCredits"@),
    }
}

/// The windows that an answer states, primary and secondary.
pub open spec fn windows_in(value: JsonTree) -> (Option<WindowView>, Option<WindowView>) {
    let limits = limits_in(value);
    arranged(
        read_window(limits, short_names(), 18_000),
        read_window(limits, weekly_names(), 604_800),
    )
}

/// The snapshot that an answer states, taken at the time `observed_at`; `None` where the
/// answer states no window.
pub open spec fn usage_view(value: JsonTree, observed_at: Seq<char>) -> Option<SnapshotView> {
    let (primary, secondary) = windows_in(value);
    if primary is None {
        None
    } else {
        Some(
            SnapshotView {
                status: "ok"@,
                source: "online"@,
                plan_type: plan_in(value),
                primary,
                secondary,
                reset_credits: match credits_in(value) {
                    Some(credits) => meaningful_credits_view(credits),
                    None => None,
                },
                observed_at: Some(observed_at),
                message: None,
            },
        )
    }
}

/// What is told where an answer states no window.
pub open spec fn no_window_message() -> Seq<char> {
    "在线额度响应中没有可识别的额度窗口。"@
}

/// Whether two windows are equal, their percentages compared as numbers.
fn equal_windows(a: &UsageWindow, b: &UsageWindow) -> (answer: bool)
    ensures
        answer == a@.same(b@),
{
    a.label == b.label && a.used_percent == b.used_percent && a.remaining_percent
        == b.remaining_percent && a.resets_at == b.resets_at && a.window_minutes
        == b.window_minutes
}

/// The member `first` or, where there is none, the member `second`.
fn either_member<'a>(value: &'a Json, first: &str, second: &str) -> (found: Option<&'a Json>)
    ensures
        match found {
            Some(member) => (match value@.field(first@) {
                Some(tree) => tree == member@,
                None => value@.field(second@) == Some(member@),
            }),
            None => value@.field(first@) is None && value@.field(second@) is None,
        },
{
    match value.get(first) {
        Some(member) => Some(member),
        None => value.get(second),
    }
}

/// The snapshot that an answer states, taken at the time `observed_at`.
pub fn usage_snapshot(value: &Json, observed_at: String) -> (result: Result<QuotaSnapshot, String>)
    ensures
        match result {
            Ok(snapshot) => usage_view(value@, observed_at@) == Some(snapshot@),
            Err(message) => usage_view(value@, observed_at@) is None && message@
                == no_window_message(),
        },
        result matches Ok(snapshot) ==> {
            &&& snapshot.primary matches Some(w) && w@.well_formed()
            &&& snapshot.secondary matches Some(w) ==> w@.well_formed()
        },
{
    let limits: &Json = match either_member(value, "rate_limit", "rateLimit") {
        Some(limits) => limits,
        None => value,
    };
    assert(limits@ == limits_in(value@));
    let short_keys: [&str; 8] = [
        "primary_window",
        "primaryWindow",
        "short_window",
        "shortWindow",
        "five_hour_window",
        "fiveHourWindow",
        "5h",
        "primary",
    ];
    assert(names(short_keys@) == short_names());
    let short: Option<UsageWindow> = parse_online_window(
        find_online_window(limits, &short_keys, 18_000),
    );
    let weekly_keys: [&str; 11] = [
        "secondary_window",
        "secondaryWindow",
        "weekly_window",
        "weeklyWindow",
        "week_window",
        "weekWindow",
        "weekly",
        "secondary",
        "primary_window",
        "primaryWindow",
        "primary",
    ];
    assert(names(weekly_keys@) == weekly_names());
    let weekly: Option<UsageWindow> = parse_online_window(
        find_online_window(limits, &weekly_keys, 604_800),
    );
    assert(view_of(short) == read_window(limits@, short_names(), 18_000));
    assert(view_of(weekly) == read_window(limits@, weekly_names(), 604_800));
    let (primary, secondary) = match (short, weekly) {
        (Some(s), Some(w)) => if equal_windows(&s, &w) {
            (Some(s), None)
        } else {
            (Some(s), Some(w))
        },
        (Some(s), None) => (Some(s), None),
        (None, Some(w)) => (Some(w), None),
        (None, None) => {
            return Err("在线额度响应中没有可识别的额度窗口。".to_owned());
        },
    };
    let plan_keys: [&str; 2] = ["plan_type", "planType"];
    assert(names(plan_keys@) == plan_names());
    let plan: Option<&str> = match pick_string(value, &plan_keys) {
        Some(plan) => Some(plan),
        None => pick_string(limits, &plan_keys),
    };
    let plan_type: Option<String> = match plan {
        Some(plan) => Some(plan.to_owned()),
        None => None,
    };
    let own: Option<&Json> = either_member(
        value,
        "rate_limit_reset_credits",
        "rateLimitResetCredits",
    );
    let stated: Option<&Json> = match own {
        Some(credits) => Some(credits),
        None => either_member(limits, "rate_limit_reset_credits", "rateLimitResetCredits"),
    };
    let reset_credits: Option<ResetCreditSnapshot> = match stated {
        Some(credits) => parse_meaningful_reset_credit_response(credits),
        None => None,
    };
    Ok(
        QuotaSnapshot {
            status: "ok".to_owned(),
            source: "online".to_owned(),
            plan_type,
            primary,
            secondary,
            reset_credits,
            observed_at: Some(observed_at),
            message: None,
        },
    )
}

/// Whether a text ends as a moment with milliseconds does: in a point, three digits and a `Z`.
pub open spec fn ends_in_milliseconds(text: Seq<char>) -> bool {
    &&& text.len() >= 24
    &&& text.last() == 'Z'
    &&& text[text.len() - 5] == '.'
    &&& all_digits(text.subrange(text.len() - 4, text.len() - 1))
}

/// `chrono::Utc::now` and `DateTime::to_rfc3339_opts`, with milliseconds and `Z` for the
/// offset: the time of the call as text. Which time that is depends on the clock, so nothing is
/// said of it but how its text ends.
#[verifier::external_body]
fn current_time() -> (text: String)
    ensures
        ends_in_milliseconds(text@),
{
    chrono::Utc::now().to_rfc3339_opts(chrono::SecondsFormat::Millis, true)
}

/// Whether a text is one that the clock gives: what a reading of it comes to.
pub closed spec fn is_clock_text(text: Seq<char>) -> bool {
    exists|now: String| #[trigger] call_ensures(current_time, (), now) && now@ == text
}

/// A text is one that the clock gives just where a reading of the clock came to it, and such a text
/// ends in a point, three digits and a `Z`.
proof fn law_clock_texts_are_readings(text: Seq<char>)
    ensures
        is_clock_text(text) <==> exists|now: String| #[trigger]
            call_ensures(current_time, (), now) && now@ == text,
        is_clock_text(text) ==> {
            let n = text.len() as int;
            &&& n >= 24
            &&& text[n - 5] == '.'
            &&& '0' <= text[n - 4] <= '9'
            &&& '0' <= text[n - 3] <= '9'
            &&& '0' <= text[n - 2] <= '9'
            &&& text[n - 1] == 'Z'
        },
{
    if is_clock_text(text) {
        let n: int = text.len() as int;
        let digits: Seq<char> = text.subrange(n - 4, n - 1);
        assert(all_digits(digits));
        assert(is_digit(digits[0]) && is_digit(digits[1]) && is_digit(digits[2]));
        assert(digits[0] == text[n - 4] && digits[1] == text[n - 3] && digits[2] == text[n - 2]);
    }
}

/// The snapshot that an answer states, taken now: its time is a reading of the clock.
pub fn parse_usage_response(value: &Json) -> (result: Result<QuotaSnapshot, String>)
    ensures
        result is Ok <==> windows_in(value@).0 is Some,
        match result {
            Ok(snapshot) => {
                &&& snapshot.observed_at is Some
                &&& is_clock_text(snapshot.observed_at->0@)
                &&& ends_in_milliseconds(snapshot.observed_at->0@)
                &&& usage_view(value@, snapshot.observed_at->0@) == Some(snapshot@)
                &&& snapshot.primary matches Some(w) && w@.well_formed()
                &&& snapshot.secondary matches Some(w) ==> w@.well_formed()
            },
            Err(message) => message@ == no_window_message(),
        },
{
    let now: String = current_time();
    assert(is_clock_text(now@));
    usage_snapshot(value, now)
}

/// The short window comes first wherever the answer states one; a weekly window comes first
/// where it stands alone.
pub proof fn law_short_window_comes_first(value: JsonTree, observed_at: Seq<char>)
    ensures
        usage_view(value, observed_at) matches Some(snapshot) ==> {
            let short = read_window(limits_in(value), short_names(), 18_000);
            let weekly = read_window(limits_in(value), weekly_names(), 604_800);
            if short is Some {
                snapshot.primary == short && (snapshot.secondary is None || snapshot.secondary
                    == weekly)
            } else {
                snapshot.primary == weekly && snapshot.secondary is None
            }
        },
{
}

/// A snapshot from the online service always has a primary window, and its secondary window,
/// where there is one, is not the primary one over again.
pub proof fn law_online_windows_differ(value: JsonTree, observed_at: Seq<char>)
    ensures
        usage_view(value, observed_at) matches Some(snapshot) ==> {
            &&& snapshot.primary is Some
            &&& snapshot.secondary is Some ==> !same_windows(snapshot.primary, snapshot.secondary)
        },
{
}

/// A number is a ratio where its name says so, and otherwise where it is at most one under a name
/// that does not speak of percent; a name that speaks of percent holds a percentage.
pub proof fn law_names_tell_ratios(key: Seq<char>, number: NumberTree)
    ensures
        key == "remaining_ratio"@ || key == "remainingRatio"@ || key == "used_ratio"@ || key
            == "usedRatio"@ || key == "utilization"@ ==> is_ratio(key, number),
        !(key == "remaining_ratio"@ || key == "remainingRatio"@ || key == "used_ratio"@ || key
            == "usedRatio"@ || key == "utilization"@) ==> (is_ratio(key, number) <==> {
            &&& !holds_text(key, "percent"@)
            &&& !holds_text(key, "pct"@)
            &&& number.at_most_one()
        }),
{
}

/// What is left of a window is the first number among the names for what is left, in percent; where
/// there is none, it is what the first number among the names for what is used leaves; where there
/// is none either, there is no window.
pub proof fn law_what_is_left_of_a_window(value: JsonTree)
    ensures
        ({
            let left_names = seq![
                "remaining_percent"@,
                "remainingPercent"@,
                "remaining_pct"@,
                "remainingPct"@,
                "remaining_ratio"@,
                "remainingRatio"@,
                "remaining"@,
            ];
            let used_names = seq![
                "used_percent"@,
                "usedPercent"@,
                "used_pct"@,
                "usedPct"@,
                "used_ratio"@,
                "usedRatio"@,
                "utilization"@,
                "used"@,
            ];
            match picked_number(value, left_names) {
                Some((i, number)) => online_window(value) matches Some(w) && w.remaining
                    == number.percent(is_ratio(left_names[i], number)),
                None => match picked_number(value, used_names) {
                    Some((i, number)) => online_window(value) matches Some(w) && w.remaining
                        == complement_bits(number.percent(is_ratio(used_names[i], number))),
                    None => online_window(value) is None,
                },
            }
        }),
        online_window(value) matches Some(w) ==> w.used == complement_bits(w.remaining),
{
}

/// The length of a window is the first count among the names for minutes, where it fits, and
/// otherwise the whole minutes of the first count among the names for seconds; it names the window.
/// The window starts anew at the first moment among the names for that.
pub proof fn law_length_and_reset_of_a_window(value: JsonTree)
    ensures
        online_window(value) matches Some(w) ==> {
            let minutes = picked_unsigned(
                value,
                seq!["window_minutes"@, "windowMinutes"@, "duration_minutes"@, "durationMinutes"@],
            );
            let seconds = picked_unsigned(
                value,
                seq![
                    "limit_window_seconds"@,
                    "limitWindowSeconds"@,
                    "window_seconds"@,
                    "windowSeconds"@,
                    "duration_seconds"@,
                    "durationSeconds"@,
                    "period_seconds"@,
                    "periodSeconds"@,
                ],
            );
            let stated = minutes matches Some(m) && m <= 0x7FFF_FFFF_FFFF_FFFF;
            &&& stated ==> w.window_minutes is Some && w.window_minutes->0 == minutes->0
            &&& !stated && seconds is Some ==> w.window_minutes is Some && 60
                * w.window_minutes->0 <= seconds->0 < 60 * w.window_minutes->0 + 60
            &&& !stated && seconds is None ==> w.window_minutes is None
            &&& w.label == label_of(w.window_minutes)
            &&& w.resets_at == picked_epoch(
                value,
                seq![
                    "reset_at"@,
                    "resetAt"@,
                    "resets_at"@,
                    "resetsAt"@,
                    "reset_time"@,
                    "resetTime"@,
                ],
            )
        },
{
}

/// A member is the window that is looked for where it states a window of the expected length, give
/// or take a minute, or of no known length.
pub proof fn law_named_window_has_the_length(limits: JsonTree, key: Seq<char>, expected: u64)
    requires
        expected <= 0xFFFF_FFFF_FFFF,
    ensures
        (match limits.field(key) {
            Some(value) => match online_window(value) {
                Some(w) => {
                    let fits = w.window_minutes matches Some(m) ==> m <= 0 || -60 <= 60 * m
                        - expected <= 60;
                    &&& fits ==> named_window(limits, key, expected) == Some(value)
                    &&& !fits ==> named_window(limits, key, expected) is None
                },
                None => named_window(limits, key, expected) is None,
            },
            None => named_window(limits, key, expected) is None,
        }),
{
}

/// An item of a list is the window that is looked for where it states a window of the expected
/// length, give or take a minute, or one whose title holds one of the names, whatever the case of
/// their letters.
pub proof fn law_listed_window_has_the_length_or_the_title(
    item: JsonTree,
    keys: Seq<Seq<char>>,
    expected: u64,
)
    requires
        expected <= 0xFFFF_FFFF_FFFF,
    ensures
        item_matches(item, keys, expected) <==> {
            &&& online_window(item) is Some
            &&& {
                ||| online_window(item)->0.window_minutes matches Some(m) && m > 0 && -60 <= 60 * m
                    - expected <= 60
                ||| picked_text(
                    item,
                    seq!["name"@, "type"@, "id"@, "window"@, "label"@],
                ) matches Some(title) && exists|i: int|
                    0 <= i < keys.len() && holds_text(lowered(title), lowered(#[trigger] keys[i]))
            }
        },
{
}

/// Of the items of a list the first that fits counts.
pub proof fn law_first_fitting_item_counts(
    limits: JsonTree,
    list: Seq<char>,
    keys: Seq<Seq<char>>,
    expected: u64,
    i: int,
)
    requires
        limits.field(list) is Some,
        limits.field(list)->0 is Array,
        0 <= i <= limits.field(list)->0->Array_0.len(),
        forall|j: int|
            0 <= j < i ==> !item_matches(
                #[trigger] limits.field(list)->0->Array_0[j],
                keys,
                expected,
            ),
    ensures
        i < limits.field(list)->0->Array_0.len() && item_matches(
            limits.field(list)->0->Array_0[i],
            keys,
            expected,
        ) ==> listed_window(limits, list, keys, expected) == Some(
            limits.field(list)->0->Array_0[i],
        ),
        i == limits.field(list)->0->Array_0.len() ==> listed_window(
            limits,
            list,
            keys,
            expected,
        ) is None,
{
    lemma_first_item(limits.field(list)->0->Array_0, keys, expected, 0, i);
}

/// A search in a list passes over the items that do not fit.
proof fn lemma_first_item(
    items: Seq<JsonTree>,
    keys: Seq<Seq<char>>,
    expected: u64,
    from: int,
    i: int,
)
    requires
        0 <= from <= i <= items.len(),
        forall|j: int| from <= j < i ==> !item_matches(#[trigger] items[j], keys, expected),
    ensures
        i < items.len() && item_matches(items[i], keys, expected) ==> first_item(
            items,
            keys,
            expected,
            from,
        ) == Some(items[i]),
        i == items.len() ==> first_item(items, keys, expected, from) is None,
    decreases i - from,
{
    if from < i {
        assert(!item_matches(items[from], keys, expected));
        lemma_first_item(items, keys, expected, from + 1, i);
    }
}

/// Without an array under its name a list holds nothing.
pub proof fn law_only_arrays_are_lists(
    limits: JsonTree,
    list: Seq<char>,
    keys: Seq<Seq<char>>,
    expected: u64,
)
    requires
        !(limits.field(list) matches Some(found) && found is Array),
    ensures
        listed_window(limits, list, keys, expected) is None,
{
}

/// A window is looked for under its names first, in their order, and the first member that fits
/// counts.
pub proof fn law_named_windows_come_first(
    limits: JsonTree,
    keys: Seq<Seq<char>>,
    expected: u64,
    i: int,
)
    requires
        0 <= i < keys.len(),
        named_window(limits, keys[i], expected) is Some,
        forall|j: int| 0 <= j < i ==> named_window(limits, #[trigger] keys[j], expected) is None,
    ensures
        found_window(limits, keys, expected) == named_window(limits, keys[i], expected),
{
    lemma_first_from(keys, |k: Seq<char>| named_window(limits, k, expected), 0, i);
}

/// Where no name has a window that fits, the lists are searched in their order, and the first that
/// holds one counts; where none does, there is no such window.
pub proof fn law_lists_are_searched_in_order(
    limits: JsonTree,
    keys: Seq<Seq<char>>,
    expected: u64,
    l: int,
)
    requires
        forall|j: int|
            0 <= j < keys.len() ==> named_window(limits, #[trigger] keys[j], expected) is None,
        0 <= l <= 5,
        l > 0 ==> listed_window(limits, "windows"@, keys, expected) is None,
        l > 1 ==> listed_window(limits, "limit_windows"@, keys, expected) is None,
        l > 2 ==> listed_window(limits, "limitWindows"@, keys, expected) is None,
        l > 3 ==> listed_window(limits, "limits"@, keys, expected) is None,
        l > 4 ==> listed_window(limits, "buckets"@, keys, expected) is None,
    ensures
        l < 5 ==> ({
            let list = seq![
                "windows"@,
                "limit_windows"@,
                "limitWindows"@,
                "limits"@,
                "buckets"@,
            ][l];
            listed_window(limits, list, keys, expected) is Some ==> found_window(
                limits,
                keys,
                expected,
            ) == listed_window(limits, list, keys, expected)
        }),
        l == 5 ==> found_window(limits, keys, expected) is None,
{
    lemma_first_from(
        keys,
        |k: Seq<char>| named_window(limits, k, expected),
        0,
        keys.len() as int,
    );
    let look = |list: Seq<char>| listed_window(limits, list, keys, expected);
    let lists: Seq<Seq<char>> = list_names();
    assert forall|j: int| 0 <= j < l implies look(#[trigger] lists[j]) is None by {
        assert(j == 0 || j == 1 || j == 2 || j == 3 || j == 4);
    }
    lemma_first_from(lists, look, 0, l);
}

/// A window that was found reads as the object that was found.
pub proof fn law_found_window_is_read(limits: JsonTree, keys: Seq<Seq<char>>, expected: u64)
    ensures
        found_window(limits, keys, expected) matches Some(value) ==> read_window(
            limits,
            keys,
            expected,
        ) == online_window(value),
        found_window(limits, keys, expected) is None ==> read_window(
            limits,
            keys,
            expected,
        ) is None,
{
}

/// The limits of an answer stand under their name, spelled in one way or the other, or are the
/// answer itself.
pub proof fn law_limits_of_an_answer(value: JsonTree)
    ensures
        value.field("rate_limit"@) matches Some(limits) ==> limits_in(value) == limits,
        value.field("rate_limit"@) is None ==> (match value.field("rateLimit"@) {
            Some(limits) => limits_in(value) == limits,
            None => limits_in(value) == value,
        }),
{
}

/// The primary window is the short one of five hours, and the secondary window is the weekly one,
/// wherever an answer states both and they differ in anything. A weekly window that is the short
/// one over again is left out, and one that stands alone comes first.
pub proof fn law_both_windows_are_shown(value: JsonTree, observed_at: Seq<char>)
    ensures
        ({
            let short = read_window(
                limits_in(value),
                seq![
                    "primary_window"@,
                    "primaryWindow"@,
                    "short_window"@,
                    "shortWindow"@,
                    "five_hour_window"@,
                    "fiveHourWindow"@,
                    "5h"@,
                    "primary"@,
                ],
                18_000,
            );
            let weekly = read_window(
                limits_in(value),
                seq![
                    "secondary_window"@,
                    "secondaryWindow"@,
                    "weekly_window"@,
                    "weeklyWindow"@,
                    "week_window"@,
                    "weekWindow"@,
                    "weekly"@,
                    "secondary"@,
                    "primary_window"@,
                    "primaryWindow"@,
                    "primary"@,
                ],
                604_800,
            );
            match usage_view(value, observed_at) {
                Some(snapshot) => match (short, weekly) {
                    (Some(s), Some(w)) => {
                        &&& snapshot.primary == Some(s)
                        &&& s.label != w.label || signed_units(s.used) != signed_units(w.used)
                            || signed_units(s.remaining) != signed_units(w.remaining)
                            || s.resets_at != w.resets_at || s.window_minutes != w.window_minutes
                            ==> snapshot.secondary == Some(w)
                        &&& s.label == w.label && signed_units(s.used) == signed_units(w.used)
                            && signed_units(s.remaining) == signed_units(w.remaining)
                            && s.resets_at == w.resets_at && s.window_minutes == w.window_minutes
                            ==> snapshot.secondary is None
                    },
                    (Some(s), None) => snapshot.primary == Some(s) && snapshot.secondary is None,
                    (None, Some(w)) => snapshot.primary == Some(w) && snapshot.secondary is None,
                    (None, None) => false,
                },
                None => short is None && weekly is None,
            }
        }),
{
    let limits: JsonTree = limits_in(value);
    let short: Option<WindowView> = read_window(limits, short_names(), 18_000);
    let weekly: Option<WindowView> = read_window(limits, weekly_names(), 604_800);
    if short is Some && weekly is Some {
        law_equal_windows_agree_in_all(short->0, weekly->0);
    }
}

/// The plan is the first text among its names in the answer, and otherwise in its limits. The reset
/// credits stand under their name in the answer, and otherwise in its limits, in one spelling or the
/// other. The rest says that the snapshot is from the online service, and when it was taken.
pub proof fn law_details_of_an_answer(value: JsonTree, observed_at: Seq<char>)
    requires
        usage_view(value, observed_at) is Some,
    ensures
        ({
            let snapshot = usage_view(value, observed_at)->0;
            let limits = limits_in(value);
            let own_plan = picked_text(value, seq!["plan_type"@, "planType"@]);
            let credits = match value.field("rate_limit_reset_credits"@) {
                Some(found) => Some(found),
                None => match value.field("rateLimitResetCredits"@) {
                    Some(found) => Some(found),
                    None => match limits.field("rate_limit_reset_credits"@) {
                        Some(found) => Some(found),
                        None => limits.field("rateLimitResetCredits"@),
                    },
                },
            };
            &&& snapshot.status == "ok"@
            &&& snapshot.source == "online"@
            &&& snapshot.observed_at == Some(observed_at)
            &&& snapshot.message is None
            &&& own_plan is Some ==> snapshot.plan_type == own_plan
            &&& own_plan is None ==> snapshot.plan_type == picked_text(
                limits,
                seq!["plan_type"@, "planType"@],
            )
            &&& credits is Some ==> snapshot.reset_credits == meaningful_credits_view(credits->0)
            &&& credits is None ==> snapshot.reset_credits is None
        }),
{
}

} // verus!
