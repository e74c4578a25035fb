//! Reset credits: how many there are and when they expire.
use vstd::prelude::*;

use crate::fields::{
    direct_u64, names, picked_time_text, picked_unsigned, timestamp_text,
};
use crate::json::{member, Json, JsonTree};
use crate::quota::{view_of, CreditsView, ResetCreditSnapshot};
use crate::text::{
    comes_before, lemma_text_order, lemma_text_order_carries, same_text, text_before, texts,
};

verus! {

/// The names of the member that says when a credit expires.
pub open spec fn expiry_names() -> Seq<Seq<char>> {
    seq!["expires_at"@, "expiresAt"@, "expiration_time"@, "expirationTime"@, "expires"@]
}

/// The names of the members below which credits are looked for.
pub open spec fn credit_names() -> Seq<Seq<char>> {
    seq!["credits"@, "reset_credits"@, "resetCredits"@, "available"@, "items"@, "grants"@]
}

/// The names of the member that says how many credits there are.
pub open spec fn count_names() -> Seq<Seq<char>> {
    seq!["available_count"@, "availableCount"@, "remaining"@, "count"@, "quantity"@]
}

/// A member is part of the object that holds it.
proof fn lemma_member_is_part(members: Seq<(Seq<char>, JsonTree)>, key: Seq<char>) -> (i: int)
    requires
        member(members, key) is Some,
    ensures
        0 <= i < members.len(),
        members[i].1 == member(members, key)->0,
    decreases members.len(),
{
    if members[0].0 == key {
        0
    } else {
        let j: int = lemma_member_is_part(members.skip(1), key);
        j + 1
    }
}

/// A member of an object is smaller than the object.
pub proof fn lemma_field_smaller(value: JsonTree, key: Seq<char>)
    ensures
        value.field(key) is Some ==> decreases_to!(value => value.field(key)->0),
{
    if value.field(key) is Some {
        let members: Seq<(Seq<char>, JsonTree)> = value->Object_0;
        let i: int = lemma_member_is_part(members, key);
        assert(decreases_to!(value => members[i].1));
    }
}

/// The expiry times in a document, in the order in which they are met: an array item by item;
/// an object's own time first, and after it what stands below its credit members.
pub open spec fn expiries(value: JsonTree) -> Seq<Seq<char>>
    decreases value, 1nat, 0nat,
{
    match value {
        JsonTree::Array(items) => expiries_of_items(value, 0),
        JsonTree::Object(_) => own_expiry(value) + expiries_of_members(value, 0),
        _ => Seq::empty(),
    }
}

/// An object's own expiry time, as a list.
pub open spec fn own_expiry(value: JsonTree) -> Seq<Seq<char>> {
    match picked_time_text(value, expiry_names()) {
        Some(time) => seq![time],
        None => Seq::empty(),
    }
}

/// The expiry times in the items of an array from the place `i` on.
pub open spec fn expiries_of_items(value: JsonTree, i: nat) -> Seq<Seq<char>>
    decreases value, 0nat, value->Array_0.len() - i,
{
    if value is Array && i < value->Array_0.len() {
        expiries(value->Array_0[i as int]) + expiries_of_items(value, i + 1)
    } else {
        Seq::empty()
    }
}

/// The expiry times below the credit members of an object from the name at `i` on.
pub open spec fn expiries_of_members(value: JsonTree, i: nat) -> Seq<Seq<char>>
    decreases value, 0nat, credit_names().len() - i,
{
    if i < credit_names().len() {
        let below = match value.field(credit_names()[i as int]) {
            Some(child) => {
                proof {
                    lemma_field_smaller(value, credit_names()[i as int]);
                }
                expiries(child)
            },
            None => Seq::empty(),
        };
        below + expiries_of_members(value, i + 1)
    } else {
        Seq::empty()
    }
}

/// Every text comes before those that follow it.
pub open spec fn increasing(list: Seq<Seq<char>>) -> bool {
    forall|i: int, j: int|
        0 <= i < j < list.len() ==> text_before(#[trigger] list[i], #[trigger] list[j])
}

/// `sorted` holds the texts of `list` in order, each once.
pub open spec fn is_sorted_set(sorted: Seq<Seq<char>>, list: Seq<Seq<char>>) -> bool {
    &&& increasing(sorted)
    &&& forall|t: Seq<char>| #[trigger] sorted.contains(t) <==> list.contains(t)
}

/// The texts of a list in order, each once.
pub open spec fn sorted_set(list: Seq<Seq<char>>) -> Seq<Seq<char>> {
    choose|sorted: Seq<Seq<char>>| is_sorted_set(sorted, list)
}

/// A list has one ordered form: two that hold the same texts in order are the same.
pub proof fn lemma_sorted_set_unique(a: Seq<Seq<char>>, b: Seq<Seq<char>>, list: Seq<Seq<char>>)
    requires
        is_sorted_set(a, list),
        is_sorted_set(b, list),
    ensures
        a == b,
        sorted_set(list) == a,
{
    lemma_same_members(a, b);
    lemma_same_members(a, sorted_set(list));
}

/// Two ordered lists with the same members are the same.
proof fn lemma_same_members(a: Seq<Seq<char>>, b: Seq<Seq<char>>)
    requires
        increasing(a),
        increasing(b),
        forall|t: Seq<char>| #[trigger] a.contains(t) <==> b.contains(t),
    ensures
        a == b,
    decreases a.len(),
{
    if a.len() == 0 {
        if b.len() > 0 {
            assert(b.contains(b[0]));
            assert(a.contains(b[0]));
        }
    } else {
        assert(a.contains(a[0]));
        assert(b.len() > 0);
        assert(b.contains(b[0]));
        assert(a.contains(b[0]));
        let i: int = choose|i: int| 0 <= i < b.len() && b[i] == a[0];
        let j: int = choose|j: int| 0 <= j < a.len() && a[j] == b[0];
        lemma_text_order(a[0], b[0]);
        assert(a[0] == b[0]);
        let ra: Seq<Seq<char>> = a.skip(1);
        let rb: Seq<Seq<char>> = b.skip(1);
        assert forall|t: Seq<char>| #[trigger] ra.contains(t) <==> rb.contains(t) by {
            if ra.contains(t) {
                let k: int = choose|k: int| 0 <= k < ra.len() && ra[k] == t;
                assert(a[k + 1] == t);
                assert(a.contains(t));
                let m: int = choose|m: int| 0 <= m < b.len() && b[m] == t;
                lemma_text_order(a[0], t);
                assert(m != 0);
                assert(rb[m - 1] == t);
            }
            if rb.contains(t) {
                let k: int = choose|k: int| 0 <= k < rb.len() && rb[k] == t;
                assert(b[k + 1] == t);
                assert(b.contains(t));
                assert(a.contains(t));
                let m: int = choose|m: int| 0 <= m < a.len() && a[m] == t;
                lemma_text_order(b[0], t);
                assert(m != 0);
                assert(ra[m - 1] == t);
            }
        }
        lemma_same_members(ra, rb);
        assert(a == seq![a[0]] + ra);
        assert(b == seq![b[0]] + rb);
    }
}

/// Puts a text into an ordered list, where it is not there yet.
fn insert_ordered(list: &mut Vec<String>, text: String)
    requires
        increasing(texts(old(list)@)),
    ensures
        increasing(texts(final(list)@)),
        forall|t: Seq<char>| #[trigger]
            texts(final(list)@).contains(t) <==> texts(old(list)@).contains(t) || t == text@,
{
    let ghost before: Seq<Seq<char>> = texts(list@);
    let mut i: usize = 0;
    while i < list.len() && comes_before(list[i].as_str(), text.as_str())
        invariant
            i <= list@.len(),
            before == texts(list@),
            forall|j: int| 0 <= j < i ==> text_before(#[trigger] before[j], text@),
        decreases list@.len() - i,
    {
        assert(before[i as int] == list@[i as int]@);
        i = i + 1;
    }
    if i < list.len() && same_text(list[i].as_str(), text.as_str()) {
        assert(before[i as int] == text@);
        assert(before.contains(text@));
        return;
    }
    let ghost x: Seq<char> = text@;
    proof {
        assert forall|j: int| i <= j < before.len() implies text_before(x, #[trigger] before[j]) by {
            assert(before[i as int] == list@[i as int]@);
            lemma_text_order(before[i as int], x);
            if j > i {
                lemma_text_order_carries(x, before[i as int], before[j]);
            }
        }
    }
    list.insert(i, text);
    proof {
        let after: Seq<Seq<char>> = texts(list@);
        assert(after == before.insert(i as int, x));
        assert(after[i as int] == x);
        assert forall|t: Seq<char>| #[trigger] after.contains(t) <==> before.contains(t) || t
            == x by {
            if after.contains(t) {
                let k: int = choose|k: int| 0 <= k < after.len() && after[k] == t;
                if k < i {
                    assert(before[k] == t);
                } else if k > i {
                    assert(before[k - 1] == t);
                }
            }
            if before.contains(t) {
                let k: int = choose|k: int| 0 <= k < before.len() && before[k] == t;
                if k < i {
                    assert(after[k] == t);
                } else {
                    assert(after[k + 1] == t);
                }
            }
        }
    }
}

/// The texts of a list in order, each once.
fn ordered(list: Vec<String>) -> (sorted: Vec<String>)
    ensures
        is_sorted_set(texts(sorted@), texts(list@)),
        texts(sorted@) == sorted_set(texts(list@)),
{
    let mut sorted: Vec<String> = Vec::new();
    let mut i: usize = 0;
    while i < list.len()
        invariant
            i <= list@.len(),
            is_sorted_set(texts(sorted@), texts(list@).take(i as int)),
        decreases list@.len() - i,
    {
        let ghost done: Seq<Seq<char>> = texts(list@).take(i as int);
        let ghost more: Seq<Seq<char>> = texts(list@).take(i + 1);
        insert_ordered(&mut sorted, list[i].clone());
        proof {
            let x: Seq<char> = list@[i as int]@;
            assert(more == done.push(x));
            assert forall|t: Seq<char>| #[trigger] more.contains(t) <==> done.contains(t) || t
                == x by {
                if done.contains(t) {
                    let k: int = choose|k: int| 0 <= k < done.len() && done[k] == t;
                    assert(more[k] == t);
                }
                assert(more[done.len() as int] == x);
            }
        }
        i = i + 1;
    }
    proof {
        assert(texts(list@).take(list@.len() as int) == texts(list@));
        lemma_sorted_set_unique(texts(sorted@), texts(sorted@), texts(list@));
    }
    sorted
}

/// Appends the expiry times in a document to a list.
fn visit(value: &Json, output: &mut Vec<String>)
    ensures
        texts(final(output)@) == texts(old(output)@) + expiries(value@),
    decreases value@,
{
    let ghost start: Seq<Seq<char>> = texts(output@);
    match value {
        Json::Array(items) => {
            let mut i: usize = 0;
            assert(start + expiries_of_items(value@, 0) == start + expiries(value@));
            while i < items.len()
                invariant
                    i <= items@.len(),
                    *value == Json::Array(*items),
                    texts(output@) + expiries_of_items(value@, i as nat) == start + expiries(value@),
                decreases items@.len() - i,
            {
                let ghost before: Seq<Seq<char>> = texts(output@);
                assert(value@->Array_0[i as int] == items@[i as int]@);
                visit(&items[i], output);
                assert(texts(output@) + expiries_of_items(value@, (i + 1) as nat) == before
                    + expiries_of_items(value@, i as nat));
                i = i + 1;
            }
            assert(texts(output@) + Seq::<Seq<char>>::empty() == texts(output@));
        },
        Json::Object(_) => {
            let own: [&str; 5] = [
                "expires_at",
                "expiresAt",
                "expiration_time",
                "expirationTime",
                "expires",
            ];
            assert(names(own@) == expiry_names());
            if let Some(time) = timestamp_text(value, &own) {
                let ghost before: Seq<String> = output@;
                output.push(time);
                assert(texts(output@) == texts(before).push(time@));
            }
            assert(texts(output@) == start + own_expiry(value@));
            let keys: [&str; 6] = [
                "credits",
                "reset_credits",
                "resetCredits",
                "available",
                "items",
                "grants",
            ];
            assert(names(keys@) == credit_names());
            let mut i: usize = 0;
            assert(texts(output@) + expiries_of_members(value@, 0) == start + expiries(value@));
            while i < 6
                invariant
                    i <= 6,
                    keys@.len() == 6,
                    value@ is Object,
                    names(keys@) == credit_names(),
                    texts(output@) + expiries_of_members(value@, i as nat) == start + expiries(
                        value@,
                    ),
                decreases 6 - i,
            {
                let ghost before: Seq<Seq<char>> = texts(output@);
                assert(names(keys@)[i as int] == keys@[i as int]@);
                if let Some(child) = value.get(keys[i]) {
                    proof {
                        lemma_field_smaller(value@, keys@[i as int]@);
                    }
                    visit(child, output);
                }
                assert(texts(output@) + expiries_of_members(value@, (i + 1) as nat) == before
                    + expiries_of_members(value@, i as nat));
                i = i + 1;
            }
            assert(texts(output@) + Seq::<Seq<char>>::empty() == texts(output@));
        },
        _ => {
            assert(start + Seq::<Seq<char>>::empty() == start);
        },
    }
}

/// The expiry times in a document, in order, each once.
pub fn collect_reset_credit_expirations(value: &Json) -> (expirations: Vec<String>)
    ensures
        texts(expirations@) == sorted_set(expiries(value@)),
        is_sorted_set(texts(expirations@), expiries(value@)),
        forall|i: int, j: int|
            0 <= i < j < expirations@.len() ==> text_before(
                (#[trigger] expirations@[i])@,
                (#[trigger] expirations@[j])@,
            ),
        forall|i: int|
            0 <= i < expirations@.len() ==> expiries(value@).contains((#[trigger] expirations@[i])@),
        forall|t: Seq<char>|
            #[trigger] expiries(value@).contains(t) ==> exists|i: int|
                0 <= i < expirations@.len() && (#[trigger] expirations@[i])@ == t,
{
    let mut expirations: Vec<String> = Vec::new();
    visit(value, &mut expirations);
    assert(texts(expirations@) == expiries(value@));
    let sorted: Vec<String> = ordered(expirations);
    proof {
        let listed: Seq<Seq<char>> = texts(sorted@);
        assert forall|i: int, j: int| 0 <= i < j < sorted@.len() implies text_before(
            (#[trigger] sorted@[i])@,
            (#[trigger] sorted@[j])@,
        ) by {
            assert(text_before(listed[i], listed[j]));
        }
        assert forall|i: int| 0 <= i < sorted@.len() implies expiries(value@).contains(
            (#[trigger] sorted@[i])@,
        ) by {
            assert(listed[i] == sorted@[i]@);
            assert(listed.contains(listed[i]));
        }
        assert forall|t: Seq<char>| #[trigger] expiries(value@).contains(t) implies exists|i: int|
            0 <= i < sorted@.len() && (#[trigger] sorted@[i])@ == t by {
            assert(listed.contains(t));
            let i: int = choose|i: int| 0 <= i < listed.len() && listed[i] == t;
            assert(sorted@[i]@ == t);
        }
    }
    sorted
}

/// The reset credits that a document states: their number as it gives it, and otherwise the
/// number of expiry times in it, where there are any.
pub open spec fn credits_view(value: JsonTree) -> CreditsView {
    let expirations = sorted_set(expiries(value));
    CreditsView {
        status: "ok"@,
        count: match picked_unsigned(value, count_names()) {
            Some(count) => Some(count),
            None => if expirations.len() > 0 {
                Some(expirations.len() as u64)
            } else {
                None
            },
        },
        expires_at: expirations,
        message: None,
    }
}

/// The reset credits that a document states, where it states any.
pub open spec fn meaningful_credits_view(value: JsonTree) -> Option<CreditsView> {
    let credits = credits_view(value);
    if credits.count is Some || credits.expires_at.len() > 0 {
        Some(credits)
    } else {
        None
    }
}

/// The reset credits that a document states.
pub fn parse_reset_credit_response(value: &Json) -> (snapshot: ResetCreditSnapshot)
    ensures
        snapshot@ == credits_view(value@),
        increasing(snapshot@.expires_at),
{
    let expirations: Vec<String> = collect_reset_credit_expirations(value);
    let keys: [&str; 5] = ["available_count", "availableCount", "remaining", "count", "quantity"];
    assert(names(keys@) == count_names());
    assert(texts(expirations@).len() == expirations@.len());
    let count: Option<u64> = match direct_u64(value, &keys) {
        Some(count) => Some(count),
        None => if expirations.len() > 0 {
            Some(expirations.len() as u64)
        } else {
            None
        },
    };
    ResetCreditSnapshot {
        status: "ok".to_owned(),
        count,
        expires_at: expirations,
        message: None,
    }
}

/// The reset credits that a document states, where it states any.
pub fn parse_meaningful_reset_credit_response(value: &Json) -> (snapshot: Option<
    ResetCreditSnapshot,
>)
    ensures
        view_of(snapshot) == meaningful_credits_view(value@),
{
    let snapshot: ResetCreditSnapshot = parse_reset_credit_response(value);
    assert(texts(snapshot.expires_at@).len() == snapshot.expires_at@.len());
    if snapshot.count.is_some() || snapshot.expires_at.len() > 0 {
        Some(snapshot)
    } else {
        None
    }
}

/// Credits that are shown always have a number: the stated one, and otherwise the number of
/// different expiry times, of which there is then at least one.
pub proof fn law_meaningful_credits_are_counted(value: JsonTree)
    ensures
        meaningful_credits_view(value) is Some <==> credits_view(value).count is Some,
        meaningful_credits_view(value) matches Some(credits) ==> {
            &&& credits.count is Some
            &&& picked_unsigned(value, count_names()) is Some ==> credits.count == picked_unsigned(
                value,
                count_names(),
            )
            &&& picked_unsigned(value, count_names()) is None ==> credits.expires_at.len() > 0
                && credits.count == Some(credits.expires_at.len() as u64)
        },
{
}

/// A text put into an ordered list at its place, where it is not there yet.
proof fn lemma_insert_keeps_order(sorted: Seq<Seq<char>>, x: Seq<char>) -> (more: Seq<Seq<char>>)
    requires
        increasing(sorted),
    ensures
        increasing(more),
        forall|t: Seq<char>| #[trigger] more.contains(t) <==> sorted.contains(t) || t == x,
        more.len() > 0,
        more[0] == x || (sorted.len() > 0 && more[0] == sorted[0] && !text_before(x, sorted[0])),
    decreases sorted.len(),
{
    if sorted.len() == 0 {
        let more: Seq<Seq<char>> = seq![x];
        assert(more[0] == x);
        more
    } else if x == sorted[0] {
        assert(sorted.contains(sorted[0]));
        sorted
    } else if text_before(x, sorted[0]) {
        let more: Seq<Seq<char>> = seq![x] + sorted;
        assert forall|i: int, j: int| 0 <= i < j < more.len() implies text_before(
            #[trigger] more[i],
            #[trigger] more[j],
        ) by {
            if i == 0 {
                if j > 1 {
                    lemma_text_order_carries(x, sorted[0], sorted[j - 1]);
                }
            } else {
                assert(text_before(sorted[i - 1], sorted[j - 1]));
            }
        }
        assert forall|t: Seq<char>| #[trigger] more.contains(t) <==> sorted.contains(t) || t
            == x by {
            if sorted.contains(t) {
                let k: int = choose|k: int| 0 <= k < sorted.len() && sorted[k] == t;
                assert(more[k + 1] == t);
            }
            assert(more[0] == x);
            if more.contains(t) && t != x {
                let k: int = choose|k: int| 0 <= k < more.len() && more[k] == t;
                assert(sorted[k - 1] == t);
            }
        }
        more
    } else {
        let rest: Seq<Seq<char>> = sorted.skip(1);
        let below: Seq<Seq<char>> = lemma_insert_keeps_order(rest, x);
        let more: Seq<Seq<char>> = seq![sorted[0]] + below;
        lemma_text_order(x, sorted[0]);
        assert forall|i: int, j: int| 0 <= i < j < more.len() implies text_before(
            #[trigger] more[i],
            #[trigger] more[j],
        ) by {
            if i == 0 {
                assert(below.contains(below[j - 1]));
                if below[j - 1] != x {
                    let k: int = choose|k: int| 0 <= k < rest.len() && rest[k] == below[j - 1];
                    assert(text_before(sorted[0], sorted[k + 1]));
                }
            } else {
                assert(text_before(below[i - 1], below[j - 1]));
            }
        }
        assert forall|t: Seq<char>| #[trigger] more.contains(t) <==> sorted.contains(t) || t
            == x by {
            assert(more[0] == sorted[0]);
            if more.contains(t) {
                let k: int = choose|k: int| 0 <= k < more.len() && more[k] == t;
                if k > 0 {
                    assert(below[k - 1] == t);
                    assert(below.contains(t));
                    if t != x {
                        let m: int = choose|m: int| 0 <= m < rest.len() && rest[m] == t;
                        assert(sorted[m + 1] == t);
                    }
                }
            }
            if sorted.contains(t) || t == x {
                if t != sorted[0] {
                    if t != x {
                        let m: int = choose|m: int| 0 <= m < sorted.len() && sorted[m] == t;
                        assert(rest[m - 1] == t);
                        assert(rest.contains(t));
                    }
                    assert(below.contains(t));
                    let k: int = choose|k: int| 0 <= k < below.len() && below[k] == t;
                    assert(more[k + 1] == t);
                }
            }
        }
        more
    }
}

/// Every list has an ordered form.
proof fn lemma_sorted_set_exists(list: Seq<Seq<char>>) -> (sorted: Seq<Seq<char>>)
    ensures
        is_sorted_set(sorted, list),
        sorted_set(list) == sorted,
    decreases list.len(),
{
    if list.len() == 0 {
        let sorted: Seq<Seq<char>> = Seq::empty();
        assert(is_sorted_set(sorted, list));
        lemma_sorted_set_unique(sorted, sorted, list);
        sorted
    } else {
        let before: Seq<Seq<char>> = lemma_sorted_set_exists(list.drop_last());
        let x: Seq<char> = list.last();
        let sorted: Seq<Seq<char>> = lemma_insert_keeps_order(before, x);
        assert forall|t: Seq<char>| #[trigger] sorted.contains(t) <==> list.contains(t) by {
            assert(before.contains(t) <==> list.drop_last().contains(t));
            if list.contains(t) && t != x {
                let k: int = choose|k: int| 0 <= k < list.len() && list[k] == t;
                assert(list.drop_last()[k] == t);
            }
            if list.drop_last().contains(t) {
                let k: int = choose|k: int|
                    0 <= k < list.drop_last().len() && list.drop_last()[k] == t;
                assert(list[k] == t);
            }
            assert(list[list.len() - 1] == x);
        }
        lemma_sorted_set_unique(sorted, sorted, list);
        sorted
    }
}

/// The expiry times of credits come in the order of texts, each once, and they are all that the
/// document states.
pub proof fn law_expiry_times_are_sorted(value: JsonTree, i: int, j: int, t: Seq<char>)
    ensures
        0 <= i < j < credits_view(value).expires_at.len() ==> text_before(
            credits_view(value).expires_at[i],
            credits_view(value).expires_at[j],
        ),
        credits_view(value).expires_at.contains(t) <==> expiries(value).contains(t),
        credits_view(value).status == "ok"@,
        credits_view(value).message is None,
{
    let sorted: Seq<Seq<char>> = lemma_sorted_set_exists(expiries(value));
}

/// A document states the expiry times of all items of an array, and nothing where it is neither an
/// array nor an object.
pub proof fn law_expiry_times_in_an_array(items: Seq<JsonTree>, t: Seq<char>, value: JsonTree)
    ensures
        expiries(JsonTree::Array(items)).contains(t) <==> exists|i: int|
            0 <= i < items.len() && expiries(#[trigger] items[i]).contains(t),
        !(value is Array) && !(value is Object) ==> expiries(value).len() == 0,
{
    lemma_times_in_items(JsonTree::Array(items), 0, t);
}

/// The expiry times in the items of an array from a place on.
proof fn lemma_times_in_items(value: JsonTree, from: nat, t: Seq<char>)
    requires
        value is Array,
        from <= value->Array_0.len(),
    ensures
        expiries_of_items(value, from).contains(t) <==> exists|i: int|
            from <= i < value->Array_0.len() && expiries(#[trigger] value->Array_0[i]).contains(t),
    decreases value->Array_0.len() - from,
{
    let items: Seq<JsonTree> = value->Array_0;
    if from < items.len() {
        let first: Seq<Seq<char>> = expiries(items[from as int]);
        let rest: Seq<Seq<char>> = expiries_of_items(value, from + 1);
        lemma_times_in_items(value, from + 1, t);
        lemma_joined_contains(first, rest, t);
    }
}

/// What two lists hold together.
proof fn lemma_joined_contains(a: Seq<Seq<char>>, b: Seq<Seq<char>>, t: Seq<char>)
    ensures
        (a + b).contains(t) <==> a.contains(t) || b.contains(t),
{
    let all: Seq<Seq<char>> = a + b;
    if a.contains(t) {
        let i: int = choose|i: int| 0 <= i < a.len() && a[i] == t;
        assert(all[i] == t);
    }
    if b.contains(t) {
        let i: int = choose|i: int| 0 <= i < b.len() && b[i] == t;
        assert(all[a.len() + i] == t);
    }
    if all.contains(t) {
        let i: int = choose|i: int| 0 <= i < all.len() && all[i] == t;
        if i < a.len() {
            assert(a[i] == t);
        } else {
            assert(b[i - a.len()] == t);
        }
    }
}

/// An object states its own expiry time, under the first of its names, and the expiry times below
/// its members for credits; what stands below any other member does not count.
pub proof fn law_expiry_times_in_an_object(value: JsonTree, t: Seq<char>)
    requires
        value is Object,
    ensures
        expiries(value).contains(t) <==> {
            ||| picked_time_text(
                value,
                seq![
                    "expires_at"@,
                    "expiresAt"@,
                    "expiration_time"@,
                    "expirationTime"@,
                    "expires"@,
                ],
            ) == Some(t)
            ||| value.field("credits"@) matches Some(child) && expiries(child).contains(t)
            ||| value.field("reset_credits"@) matches Some(child) && expiries(child).contains(t)
            ||| value.field("resetCredits"@) matches Some(child) && expiries(child).contains(t)
            ||| value.field("available"@) matches Some(child) && expiries(child).contains(t)
            ||| value.field("items"@) matches Some(child) && expiries(child).contains(t)
            ||| value.field("grants"@) matches Some(child) && expiries(child).contains(t)
        },
{
    let own: Seq<Seq<char>> = own_expiry(value);
    lemma_joined_contains(own, expiries_of_members(value, 0), t);
    assert(own.contains(t) <==> picked_time_text(value, expiry_names()) == Some(t)) by {
        if picked_time_text(value, expiry_names()) == Some(t) {
            assert(own[0] == t);
        }
    }
    lemma_times_below(value, 0, t);
    lemma_times_below(value, 1, t);
    lemma_times_below(value, 2, t);
    lemma_times_below(value, 3, t);
    lemma_times_below(value, 4, t);
    lemma_times_below(value, 5, t);
    lemma_times_below(value, 6, t);
}

/// The expiry times below the credit members from a name on.
proof fn lemma_times_below(value: JsonTree, i: nat, t: Seq<char>)
    ensures
        i < credit_names().len() ==> (expiries_of_members(value, i).contains(t) <==> {
            ||| value.field(credit_names()[i as int]) matches Some(child) && expiries(
                child,
            ).contains(t)
            ||| expiries_of_members(value, i + 1).contains(t)
        }),
        i >= credit_names().len() ==> !expiries_of_members(value, i).contains(t),
{
    if i < credit_names().len() {
        let below: Seq<Seq<char>> = match value.field(credit_names()[i as int]) {
            Some(child) => expiries(child),
            None => Seq::empty(),
        };
        lemma_joined_contains(below, expiries_of_members(value, i + 1), t);
    }
}

/// The number of credits is the stated one, under the first of its names, and otherwise the number
/// of different expiry times, where there are any. Credits without a number are none.
pub proof fn law_credits_are_counted(value: JsonTree)
    ensures
        ({
            let stated = picked_unsigned(
                value,
                seq!["available_count"@, "availableCount"@, "remaining"@, "count"@, "quantity"@],
            );
            let credits = credits_view(value);
            &&& stated is Some ==> credits.count == stated
            &&& stated is None && credits.expires_at.len() > 0 ==> credits.count == Some(
                credits.expires_at.len() as u64,
            )
            &&& stated is None && credits.expires_at.len() == 0 ==> credits.count is None
            &&& credits.count is Some ==> meaningful_credits_view(value) == Some(credits)
            &&& credits.count is None ==> meaningful_credits_view(value) is None
        }),
{
}

} // verus!
