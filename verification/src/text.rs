//! Text as sequences of characters: decimal numbers, searching, ordering and splitting.
use vstd::arithmetic::div_mod::lemma_div_denominator;
use vstd::arithmetic::power::{lemma_pow0, lemma_pow_positive, pow};
use vstd::prelude::*;

verus! {

/// `String::push` appends the character to the text.
pub assume_specification[ String::push ](s: &mut String, c: char)
    ensures
        final(s)@ == old(s)@.push(c),
;

/// The characters of a text.
pub fn chars_of(text: &str) -> (chars: Vec<char>)
    ensures
        chars@ == text@,
{
    let mut chars: Vec<char> = Vec::new();
    for c in it: text.chars()
        invariant
            it.seq() == text@,
            chars@ == it.seq().take(it.index() as int),
    {
        chars.push(c);
    }
    chars
}

/// The text made of the characters from `from` up to `to`.
pub fn text_of(chars: &Vec<char>, from: usize, to: usize) -> (text: String)
    requires
        from <= to <= chars@.len(),
    ensures
        text@ == chars@.subrange(from as int, to as int),
{
    let mut text: String = String::new();
    let mut i: usize = from;
    while i < to
        invariant
            from <= i <= to <= chars@.len(),
            text@ == chars@.subrange(from as int, i as int),
        decreases to - i,
    {
        text.push(chars[i]);
        i = i + 1;
    }
    text
}

/// Appends a text to another.
pub fn append_text(out: &mut String, tail: &str)
    ensures
        final(out)@ == old(out)@ + tail@,
{
    let ghost start: Seq<char> = out@;
    for c in it: tail.chars()
        invariant
            it.seq() == tail@,
            out@ == start + it.seq().take(it.index() as int),
    {
        out.push(c);
    }
}

/// One text after the other.
pub fn joined(head: &str, tail: &str) -> (text: String)
    ensures
        text@ == head@ + tail@,
{
    let mut text: String = head.to_owned();
    append_text(&mut text, tail);
    text
}

/// Whether two texts are the same.
pub fn same_text(a: &str, b: &str) -> (same: bool)
    ensures
        same == (a@ == b@),
{
    let left: String = a.to_owned();
    let right: String = b.to_owned();
    left == right
}

/// The decimal digits.
pub open spec fn is_digit(c: char) -> bool {
    '0' <= c <= '9'
}

/// The number that a decimal digit stands for.
pub open spec fn digit_value(c: char) -> nat {
    (c as int - '0' as int) as nat
}

/// The decimal digit that stands for a number below ten.
pub open spec fn digit_char(d: nat) -> char {
    ('0' as int + d) as char
}

/// A text of decimal digits only.
pub open spec fn all_digits(s: Seq<char>) -> bool {
    forall|i: int| 0 <= i < s.len() ==> is_digit(#[trigger] s[i])
}

/// The number that a text of decimal digits stands for.
pub open spec fn digits_value(s: Seq<char>) -> nat
    decreases s.len(),
{
    if s.len() == 0 {
        0
    } else {
        digits_value(s.drop_last()) * 10 + digit_value(s.last())
    }
}

/// At least one digit and nothing but digits.
pub open spec fn is_number(s: Seq<char>) -> bool {
    s.len() > 0 && all_digits(s)
}

/// The reading of a text as an unsigned integer: an optional plus sign and digits.
pub open spec fn parsed_u64(s: Seq<char>) -> Option<u64> {
    let body = if s.len() > 0 && s[0] == '+' {
        s.skip(1)
    } else {
        s
    };
    if is_number(body) && digits_value(body) <= u64::MAX {
        Some(digits_value(body) as u64)
    } else {
        None
    }
}

/// The reading of a text as a signed integer: an optional sign and digits.
pub open spec fn parsed_i64(s: Seq<char>) -> Option<i64> {
    let negative = s.len() > 0 && s[0] == '-';
    let body = if s.len() > 0 && (s[0] == '+' || s[0] == '-') {
        s.skip(1)
    } else {
        s
    };
    let value = if negative {
        -(digits_value(body) as int)
    } else {
        digits_value(body) as int
    };
    if is_number(body) && i64::MIN <= value <= i64::MAX {
        Some(value as i64)
    } else {
        None
    }
}

/// The decimal digits of a number, without leading zeros.
pub open spec fn decimal(n: nat) -> Seq<char>
    decreases n,
{
    if n < 10 {
        seq![digit_char(n)]
    } else {
        decimal(n / 10).push(digit_char(n % 10))
    }
}

/// The decimal form of an integer.
pub open spec fn decimal_int(n: int) -> Seq<char> {
    if n < 0 {
        seq!['-'] + decimal((-n) as nat)
    } else {
        decimal(n as nat)
    }
}

/// A longer run of digits stands for a number at least as large.
proof fn lemma_prefix_value(s: Seq<char>, i: int)
    requires
        0 <= i <= s.len(),
    ensures
        digits_value(s.take(i)) <= digits_value(s),
    decreases s.len(),
{
    if i == s.len() {
        assert(s.take(i) == s);
    } else {
        lemma_prefix_value(s.drop_last(), i);
        assert(s.drop_last().take(i) == s.take(i));
    }
}

/// Reads the digits from `from` on, where there is at least one and they fit.
fn read_digits(chars: &Vec<char>, from: usize) -> (value: Option<u64>)
    requires
        from <= chars@.len(),
    ensures
        ({
            let body = chars@.skip(from as int);
            value == if is_number(body) && digits_value(body) <= u64::MAX {
                Some(digits_value(body) as u64)
            } else {
                None::<u64>
            }
        }),
{
    let ghost body: Seq<char> = chars@.skip(from as int);
    if from == chars.len() {
        return None;
    }
    let mut value: u64 = 0;
    let mut i: usize = from;
    while i < chars.len()
        invariant
            from <= i <= chars@.len(),
            body == chars@.skip(from as int),
            forall|j: int| 0 <= j < i - from ==> is_digit(#[trigger] body[j]),
            value == digits_value(body.take(i - from)),
        decreases chars@.len() - i,
    {
        let c: char = chars[i];
        if c < '0' || c > '9' {
            assert(!is_digit(body[i - from]));
            return None;
        }
        let digit: u64 = c as u64 - 48;
        proof {
            assert(body.take(i - from + 1).drop_last() == body.take(i - from));
            lemma_prefix_value(body, i - from + 1);
        }
        if value > (u64::MAX - digit) / 10 {
            return None;
        }
        value = value * 10 + digit;
        i = i + 1;
    }
    proof {
        assert(body.take(body.len() as int) == body);
    }
    Some(value)
}

/// Reads an unsigned integer.
pub fn parse_u64(text: &str) -> (value: Option<u64>)
    ensures
        value == parsed_u64(text@),
{
    let chars: Vec<char> = chars_of(text);
    assert(chars@.skip(0) == chars@);
    if chars.len() > 0 && chars[0] == '+' {
        read_digits(&chars, 1)
    } else {
        read_digits(&chars, 0)
    }
}

/// Reads a signed integer.
pub fn parse_i64(text: &str) -> (value: Option<i64>)
    ensures
        value == parsed_i64(text@),
{
    let chars: Vec<char> = chars_of(text);
    assert(chars@.skip(0) == chars@);
    let negative: bool = chars.len() > 0 && chars[0] == '-';
    let signed: bool = negative || (chars.len() > 0 && chars[0] == '+');
    let magnitude: Option<u64> = if signed {
        read_digits(&chars, 1)
    } else {
        read_digits(&chars, 0)
    };
    match magnitude {
        None => None,
        Some(m) => {
            if negative {
                if m < 0x8000_0000_0000_0000 {
                    Some(-(m as i64))
                } else if m == 0x8000_0000_0000_0000 {
                    Some(i64::MIN)
                } else {
                    None
                }
            } else if m <= i64::MAX as u64 {
                Some(m as i64)
            } else {
                None
            }
        },
    }
}

/// Appends the decimal form of a number.
pub fn append_decimal(out: &mut String, n: u64)
    ensures
        final(out)@ == old(out)@ + decimal(n as nat),
    decreases n,
{
    if n >= 10 {
        append_decimal(out, n / 10);
    }
    let digit: u8 = (n % 10) as u8;
    out.push((48 + digit) as char);
}

/// The decimal form of a signed integer.
pub fn i64_text(n: i64) -> (text: String)
    ensures
        text@ == decimal_int(n as int),
{
    let mut text: String = String::new();
    if n < 0 {
        text.push('-');
        let magnitude: u64 = if n == i64::MIN {
            0x8000_0000_0000_0000
        } else {
            (-n) as u64
        };
        append_decimal(&mut text, magnitude);
        assert(text@ == seq!['-'] + decimal((-n) as nat));
    } else {
        append_decimal(&mut text, n as u64);
    }
    text
}

/// A decimal form holds digits only and stands for the number it was made from.
proof fn lemma_decimal_value(n: nat)
    ensures
        is_number(decimal(n)),
        digits_value(decimal(n)) == n,
    decreases n,
{
    let s: Seq<char> = decimal(n);
    if n < 10 {
        assert(s.drop_last() == Seq::<char>::empty());
        assert(digits_value(s.drop_last()) == 0);
    } else {
        lemma_decimal_value(n / 10);
        assert(s.drop_last() == decimal(n / 10));
    }
}

/// Writing an integer that is not negative in decimal and reading it again gives it back.
pub proof fn law_unsigned_decimal_reads_back(n: u64)
    ensures
        parsed_u64(decimal(n as nat)) == Some(n),
        all_digits(decimal(n as nat)),
{
    lemma_decimal_value(n as nat);
    assert(is_digit(decimal(n as nat)[0]));
}

/// Writing an integer in decimal and reading it again gives it back.
pub proof fn law_decimal_reads_back(n: i64)
    ensures
        parsed_i64(decimal_int(n as int)) == Some(n),
{
    if n < 0 {
        let m: nat = (-n) as nat;
        lemma_decimal_value(m);
        assert(decimal_int(n as int).skip(1) == decimal(m));
    } else {
        lemma_decimal_value(n as nat);
        assert(is_digit(decimal(n as nat)[0]));
    }
}

/// Each place of a decimal form holds the digit of its power of ten, and there are no more places
/// than the number needs.
pub proof fn law_decimal_is_positional(n: nat, i: nat)
    ensures
        decimal(n).len() >= 1,
        (n as int) < pow(10, decimal(n).len()),
        decimal(n).len() > 1 ==> pow(10, (decimal(n).len() - 1) as nat) <= n,
        i < decimal(n).len() ==> decimal(n)[decimal(n).len() - 1 - i] as int == 48 + (n as int
            / pow(10, i)) % 10,
    decreases n,
{
    lemma_pow0(10);
    reveal_with_fuel(pow, 2);
    if n < 10 {
        assert(pow(10, 1) == 10);
        assert(n as int / 1 == n);
    } else {
        let m: nat = n / 10;
        let k: nat = decimal(m).len();
        law_decimal_is_positional(m, 0);
        assert(decimal(n).len() == k + 1);
        assert(pow(10, k + 1) == 10 * pow(10, k));
        assert(pow(10, k) == 10 * pow(10, (k - 1) as nat));
        if i == 0 {
            assert(n as int / 1 == n);
        } else if i <= k {
            law_decimal_is_positional(m, (i - 1) as nat);
            lemma_pow_positive(10, (i - 1) as nat);
            lemma_div_denominator(n as int, 10, pow(10, (i - 1) as nat));
            assert(pow(10, i) == 10 * pow(10, (i - 1) as nat));
            assert(decimal(n)[k - i] == decimal(m)[k - i]);
        }
        if k == 1 {
            assert(pow(10, 1) == 10);
        }
    }
}

/// The decimal form of a negative integer is a minus sign before that of its magnitude.
pub proof fn law_minus_sign_comes_first(n: nat)
    ensures
        decimal_int(n as int) == decimal(n),
        n > 0 ==> decimal_int(-n) == seq!['-'] + decimal(n),
{
}

/// The number of a run of digits, digit by digit.
proof fn lemma_digits_fold(s: Seq<char>, f: spec_fn(int, char) -> int)
    requires
        forall|v: int, c: char| #[trigger] f(v, c) == 10 * v + (c as int - 48),
        forall|i: int| 0 <= i < s.len() ==> '0' <= #[trigger] s[i] <= '9',
    ensures
        digits_value(s) == s.fold_left(0, f),
    decreases s.len(),
{
    if s.len() > 0 {
        lemma_digits_fold(s.drop_last(), f);
    }
}

/// Digits are read as the number they stand for, where it fits: each digit counts ten times less
/// than the one before it. A sign may stand before them, and a minus sign makes the number
/// negative.
pub proof fn law_digits_are_read(s: Seq<char>, n: u64, m: i64)
    requires
        s.len() > 0,
        forall|i: int| 0 <= i < s.len() ==> '0' <= #[trigger] s[i] <= '9',
    ensures
        parsed_u64(s) == Some(n) <==> n == s.fold_left(
            0,
            |v: int, c: char| 10 * v + (c as int - 48),
        ),
        parsed_u64(seq!['+'] + s) == parsed_u64(s),
        parsed_i64(s) == Some(m) <==> m == s.fold_left(
            0,
            |v: int, c: char| 10 * v + (c as int - 48),
        ),
        parsed_i64(seq!['+'] + s) == parsed_i64(s),
        parsed_i64(seq!['-'] + s) == Some(m) <==> -m == s.fold_left(
            0,
            |v: int, c: char| 10 * v + (c as int - 48),
        ),
{
    lemma_digits_fold(s, |v: int, c: char| 10 * v + (c as int - 48));
    assert forall|i: int| 0 <= i < s.len() implies is_digit(#[trigger] s[i]) by {}
    assert((seq!['+'] + s).skip(1) == s);
    assert((seq!['-'] + s).skip(1) == s);
    assert('0' <= s[0] <= '9');
}

/// Nothing but digits after a sign or none is read: an unsigned integer has at most a plus sign,
/// and there is at least one digit.
pub proof fn law_only_digits_are_read(s: Seq<char>, i: int)
    ensures
        parsed_u64(s) is Some && 0 <= i < s.len() ==> ('0' <= s[i] <= '9') || (i == 0 && s[0] == '+'
            && s.len() > 1),
        parsed_i64(s) is Some && 0 <= i < s.len() ==> ('0' <= s[i] <= '9') || (i == 0 && (s[0] == '+'
            || s[0] == '-') && s.len() > 1),
        parsed_u64(Seq::empty()) is None,
        parsed_i64(Seq::empty()) is None,
{
    if 0 <= i < s.len() {
        if parsed_u64(s) is Some {
            if s[0] == '+' {
                assert(all_digits(s.skip(1)));
                if i > 0 {
                    assert(is_digit(s.skip(1)[i - 1]));
                }
            } else {
                assert(is_digit(s[i]));
            }
        }
        if parsed_i64(s) is Some {
            if s[0] == '+' || s[0] == '-' {
                assert(all_digits(s.skip(1)));
                if i > 0 {
                    assert(is_digit(s.skip(1)[i - 1]));
                }
            } else {
                assert(is_digit(s[i]));
            }
        }
    }
}

/// An ASCII capital becomes the small letter; every other character stays.
pub open spec fn lower_char(c: char) -> char {
    if 'A' <= c <= 'Z' {
        (c as int + 32) as char
    } else {
        c
    }
}

/// A text with its ASCII capitals made small.
pub open spec fn lowered(s: Seq<char>) -> Seq<char> {
    s.map_values(|c: char| lower_char(c))
}

/// `part` stands somewhere in `whole`, without a gap.
pub open spec fn holds_text(whole: Seq<char>, part: Seq<char>) -> bool {
    exists|i: int|
        0 <= i <= whole.len() - part.len() && #[trigger] whole.subrange(i, i + part.len()) == part
}

/// Making letters small keeps the length of a text, moves its ASCII capitals by the distance
/// between the two alphabets and leaves every other character.
pub proof fn law_lowering_moves_capitals_alone(s: Seq<char>, i: int)
    requires
        0 <= i < s.len(),
    ensures
        lowered(s).len() == s.len(),
        65 <= s[i] as int <= 90 ==> lowered(s)[i] as int == s[i] as int + 32,
        !(65 <= s[i] as int <= 90) ==> lowered(s)[i] == s[i],
{
}

/// A text stands in another just where that is the text with something before and after it.
pub proof fn law_held_text_stands_between(whole: Seq<char>, part: Seq<char>)
    ensures
        holds_text(whole, part) <==> exists|before: Seq<char>, after: Seq<char>|
            whole == #[trigger] (before + part + after),
{
    if holds_text(whole, part) {
        let i: int = choose|i: int|
            0 <= i <= whole.len() - part.len() && #[trigger] whole.subrange(i, i + part.len())
                == part;
        let before: Seq<char> = whole.take(i);
        let after: Seq<char> = whole.skip(i + part.len());
        assert forall|k: int| i <= k < i + part.len() implies whole[k] == part[k - i] by {
            assert(whole.subrange(i, i + part.len())[k - i] == whole[k]);
        }
        assert(whole == before + part + after);
    }
    if exists|before: Seq<char>, after: Seq<char>| whole == #[trigger] (before + part + after) {
        let (before, after): (Seq<char>, Seq<char>) = choose|
            before: Seq<char>,
            after: Seq<char>,
        | whole == #[trigger] (before + part + after);
        let i: int = before.len() as int;
        assert(whole.subrange(i, i + part.len()) == part);
    }
}

/// The text with its ASCII capitals made small.
pub fn lowered_text(text: &str) -> (out: String)
    ensures
        out@ == lowered(text@),
        out@.len() == text@.len(),
        forall|i: int|
            0 <= i < text@.len() ==> #[trigger] out@[i] as int == text@[i] as int + if 65
                <= text@[i] as int <= 90 {
                32int
            } else {
                0int
            },
{
    let mut out: String = String::new();
    for c in it: text.chars()
        invariant
            it.seq() == text@,
            out@ == lowered(it.seq().take(it.index() as int)),
    {
        let ghost before: Seq<char> = out@;
        if 'A' <= c && c <= 'Z' {
            out.push((c as u8 + 32) as char);
        } else {
            out.push(c);
        }
        proof {
            let done: Seq<char> = it.seq().take(it.index() as int);
            assert(it.seq().take(it.index() + 1) == done.push(c));
            assert(lowered(done.push(c)) == lowered(done).push(lower_char(c)));
        }
    }
    proof {
        assert(text@.take(text@.len() as int) == text@);
    }
    out
}

/// Whether the characters of `part` stand in `whole` at `at`.
fn matches_at(whole: &Vec<char>, part: &Vec<char>, at: usize) -> (answer: bool)
    requires
        at + part@.len() <= whole@.len(),
    ensures
        answer == (whole@.subrange(at as int, at + part@.len()) == part@),
{
    let n: usize = whole.len();
    let mut i: usize = 0;
    while i < part.len()
        invariant
            i <= part@.len(),
            n == whole@.len(),
            at + part@.len() <= whole@.len(),
            forall|j: int| 0 <= j < i ==> whole@[at + j] == #[trigger] part@[j],
        decreases part@.len() - i,
    {
        if whole[at + i] != part[i] {
            assert(whole@.subrange(at as int, at + part@.len())[i as int] != part@[i as int]);
            return false;
        }
        i = i + 1;
    }
    assert(whole@.subrange(at as int, at + part@.len()) == part@);
    true
}

/// Whether `part` stands somewhere in `whole`.
pub fn contains_text(whole: &str, part: &str) -> (answer: bool)
    ensures
        answer == holds_text(whole@, part@),
        answer <==> exists|i: int|
            0 <= i <= whole@.len() - part@.len() && #[trigger] whole@.subrange(i, i + part@.len())
                == part@,
{
    let outer: Vec<char> = chars_of(whole);
    let inner: Vec<char> = chars_of(part);
    if inner.len() > outer.len() {
        return false;
    }
    let last: usize = outer.len() - inner.len();
    let mut i: usize = 0;
    while i < last
        invariant
            outer@ == whole@,
            inner@ == part@,
            last == outer@.len() - inner@.len(),
            i <= last,
            forall|j: int|
                0 <= j < i ==> #[trigger] whole@.subrange(j, j + part@.len()) != part@,
        decreases last - i,
    {
        if matches_at(&outer, &inner, i) {
            assert(whole@.subrange(i as int, i + part@.len()) == part@);
            return true;
        }
        i = i + 1;
    }
    let found: bool = matches_at(&outer, &inner, last);
    assert(found ==> whole@.subrange(last as int, last + part@.len()) == part@);
    found
}

/// Whether `whole` starts with `start`.
pub fn starts_with(whole: &str, start: &str) -> (answer: bool)
    ensures
        answer == start@.is_prefix_of(whole@),
{
    let outer: Vec<char> = chars_of(whole);
    let inner: Vec<char> = chars_of(start);
    inner.len() <= outer.len() && matches_at(&outer, &inner, 0)
}

/// Whether `whole` ends with `end`.
pub fn ends_with(whole: &str, end: &str) -> (answer: bool)
    ensures
        answer == end@.is_suffix_of(whole@),
{
    let outer: Vec<char> = chars_of(whole);
    let inner: Vec<char> = chars_of(end);
    inner.len() <= outer.len() && matches_at(&outer, &inner, outer.len() - inner.len())
}

/// Texts order by the first character in which they differ, and a text comes before its
/// longer continuations.
pub open spec fn text_before(a: Seq<char>, b: Seq<char>) -> bool
    decreases a.len(),
{
    if b.len() == 0 {
        false
    } else if a.len() == 0 {
        true
    } else {
        a[0] < b[0] || (a[0] == b[0] && text_before(a.skip(1), b.skip(1)))
    }
}

/// Of two different texts one comes before the other, and not both.
pub proof fn lemma_text_order(a: Seq<char>, b: Seq<char>)
    ensures
        text_before(a, b) ==> !text_before(b, a) && a != b,
        text_before(a, b) || text_before(b, a) || a == b,
    decreases a.len(),
{
    if a.len() > 0 && b.len() > 0 {
        lemma_text_order(a.skip(1), b.skip(1));
        if a[0] == b[0] && a.skip(1) == b.skip(1) {
            assert(a == seq![a[0]] + a.skip(1));
            assert(b == seq![b[0]] + b.skip(1));
        }
    }
}

/// The order of texts carries over from one pair to the next.
pub proof fn lemma_text_order_carries(a: Seq<char>, b: Seq<char>, c: Seq<char>)
    requires
        text_before(a, b),
        text_before(b, c),
    ensures
        text_before(a, c),
    decreases a.len(),
{
    if a.len() > 0 && a[0] == b[0] && b[0] == c[0] {
        lemma_text_order_carries(a.skip(1), b.skip(1), c.skip(1));
    }
}

/// Text `a` comes before text `b` where it is a shorter beginning of it, or where at the first
/// place at which they differ its character has the smaller code point.
pub proof fn law_text_order_is_by_code_point(a: Seq<char>, b: Seq<char>)
    ensures
        text_before(a, b) <==> (a.len() < b.len() && a.is_prefix_of(b)) || exists|i: int|
            #![trigger a[i], b[i]]
            0 <= i < a.len() && i < b.len() && a.take(i) == b.take(i) && (a[i] as int) < (
            b[i] as int),
    decreases a.len(),
{
    if a.len() > 0 && b.len() > 0 {
        let ra: Seq<char> = a.skip(1);
        let rb: Seq<char> = b.skip(1);
        law_text_order_is_by_code_point(ra, rb);
        if a[0] == b[0] {
            if ra.len() < rb.len() && ra.is_prefix_of(rb) {
                assert forall|j: int| 0 <= j < a.len() implies a[j] == b.subrange(
                    0,
                    a.len() as int,
                )[j] by {
                    if j > 0 {
                        assert(ra[j - 1] == rb.subrange(0, ra.len() as int)[j - 1]);
                    }
                }
                assert(a =~= b.subrange(0, a.len() as int));
            }
            if a.len() < b.len() && a.is_prefix_of(b) {
                assert forall|j: int| 0 <= j < ra.len() implies ra[j] == rb.subrange(
                    0,
                    ra.len() as int,
                )[j] by {
                    assert(a[j + 1] == b.subrange(0, a.len() as int)[j + 1]);
                }
                assert(ra =~= rb.subrange(0, ra.len() as int));
            }
            if exists|i: int|
                #![trigger ra[i], rb[i]]
                0 <= i < ra.len() && i < rb.len() && ra.take(i) == rb.take(i) && (ra[i] as int) < (
                rb[i] as int) {
                let i: int = choose|i: int|
                    #![trigger ra[i], rb[i]]
                    0 <= i < ra.len() && i < rb.len() && ra.take(i) == rb.take(i) && (ra[i] as int)
                        < (rb[i] as int);
                assert(a[i + 1] == ra[i] && b[i + 1] == rb[i]);
                assert(a.take(i + 1) == seq![a[0]] + ra.take(i));
                assert(b.take(i + 1) == seq![b[0]] + rb.take(i));
            }
            if exists|i: int|
                #![trigger a[i], b[i]]
                0 <= i < a.len() && i < b.len() && a.take(i) == b.take(i) && (a[i] as int) < (
                b[i] as int) {
                let i: int = choose|i: int|
                    #![trigger a[i], b[i]]
                    0 <= i < a.len() && i < b.len() && a.take(i) == b.take(i) && (a[i] as int) < (
                    b[i] as int);
                assert(i > 0);
                assert(ra[i - 1] == a[i] && rb[i - 1] == b[i]);
                assert(ra.take(i - 1) == a.take(i).skip(1));
                assert(rb.take(i - 1) == b.take(i).skip(1));
            }
        } else {
            assert(a.take(0) == b.take(0));
            assert forall|i: int| 0 < i < a.len() && i < b.len() implies a.take(i) != b.take(i) by {
                assert(a.take(i)[0] != b.take(i)[0]);
            }
            if a.is_prefix_of(b) {
                assert(a[0] == b.subrange(0, a.len() as int)[0]);
            }
        }
    } else if a.len() == 0 && b.len() > 0 {
        assert(a =~= b.subrange(0, 0));
    }
}

/// Whether text `a` comes before text `b`.
pub fn comes_before(a: &str, b: &str) -> (answer: bool)
    ensures
        answer == text_before(a@, b@),
        answer <==> (a@.len() < b@.len() && a@.is_prefix_of(b@)) || exists|i: int|
            #![trigger a@[i], b@[i]]
            0 <= i < a@.len() && i < b@.len() && a@.take(i) == b@.take(i) && (a@[i] as int) < (
            b@[i] as int),
{
    proof {
        law_text_order_is_by_code_point(a@, b@);
    }
    let left: Vec<char> = chars_of(a);
    let right: Vec<char> = chars_of(b);
    let mut i: usize = 0;
    assert(left@.skip(0) == left@ && right@.skip(0) == right@);
    while i < left.len() && i < right.len() && left[i] == right[i]
        invariant
            i <= left@.len(),
            i <= right@.len(),
            text_before(left@, right@) == text_before(left@.skip(i as int), right@.skip(i as int)),
        decreases left@.len() - i,
    {
        proof {
            assert(left@.skip(i as int).skip(1) == left@.skip(i + 1));
            assert(right@.skip(i as int).skip(1) == right@.skip(i + 1));
        }
        i = i + 1;
    }
    if i == right.len() {
        false
    } else if i == left.len() {
        true
    } else {
        left[i] < right[i]
    }
}

/// The place of the first `mark` at or after `from`, or the length where there is none.
pub open spec fn find_from(s: Seq<char>, mark: char, from: int) -> int
    decreases s.len() - from,
{
    if from >= s.len() {
        s.len() as int
    } else if s[from] == mark {
        from
    } else {
        find_from(s, mark, from + 1)
    }
}

/// Where a search from `from` ends.
proof fn lemma_find_bounds(s: Seq<char>, mark: char, from: int)
    requires
        0 <= from <= s.len(),
    ensures
        from <= find_from(s, mark, from) <= s.len(),
    decreases s.len() - from,
{
    if from < s.len() && s[from] != mark {
        lemma_find_bounds(s, mark, from + 1);
    }
}

/// A search ends at the first place with the mark.
pub proof fn lemma_find_at(s: Seq<char>, mark: char, from: int, place: int)
    requires
        0 <= from <= place <= s.len(),
        forall|i: int| from <= i < place ==> s[i] != mark,
        place == s.len() || s[place] == mark,
    ensures
        find_from(s, mark, from) == place,
    decreases place - from,
{
    if from < place {
        lemma_find_at(s, mark, from + 1, place);
    }
}

/// The place of the first `mark` at or after `from`, or the length where there is none.
fn find_mark(chars: &Vec<char>, mark: char, from: usize) -> (place: usize)
    requires
        from <= chars@.len(),
    ensures
        place == find_from(chars@, mark, from as int),
        from <= place <= chars@.len(),
{
    let mut i: usize = from;
    while i < chars.len() && chars[i] != mark
        invariant
            from <= i <= chars@.len(),
            find_from(chars@, mark, from as int) == find_from(chars@, mark, i as int),
        decreases chars@.len() - i,
    {
        i = i + 1;
    }
    i
}

/// The part of a text between its first dot and the next, or the end.
pub open spec fn second_segment(s: Seq<char>) -> Option<Seq<char>> {
    let first = find_from(s, '.', 0);
    if first >= s.len() {
        None
    } else {
        Some(s.subrange(first + 1, find_from(s, '.', first + 1)))
    }
}

/// The part of a text between its first dot and the next, or the end.
pub fn segment_after_dot(text: &str) -> (segment: Option<String>)
    ensures
        match segment {
            Some(part) => second_segment(text@) == Some(part@),
            None => second_segment(text@) is None,
        },
{
    let chars: Vec<char> = chars_of(text);
    let first: usize = find_mark(&chars, '.', 0);
    if first == chars.len() {
        return None;
    }
    let end: usize = find_mark(&chars, '.', first + 1);
    Some(text_of(&chars, first + 1, end))
}

/// A line without the carriage return at its end.
pub open spec fn without_return(s: Seq<char>) -> Seq<char> {
    if s.len() > 0 && s.last() == '\r' {
        s.drop_last()
    } else {
        s
    }
}

/// The lines of the text from `from` on. A line ends at a newline, or at a carriage return
/// and a newline; what follows the last newline is a line where it is not empty.
pub open spec fn lines_from(s: Seq<char>, from: int) -> Seq<Seq<char>>
    decreases s.len() - from,
    when 0 <= from <= s.len()
    via lines_from_decreases
{
    if from >= s.len() {
        Seq::empty()
    } else {
        let end = find_from(s, '\n', from);
        if end >= s.len() {
            seq![s.subrange(from, s.len() as int)]
        } else {
            seq![without_return(s.subrange(from, end))] + lines_from(s, end + 1)
        }
    }
}

#[via_fn]
proof fn lines_from_decreases(s: Seq<char>, from: int) {
    if from < s.len() {
        lemma_find_bounds(s, '\n', from);
    }
}

/// The lines of a text.
pub open spec fn lines_of(s: Seq<char>) -> Seq<Seq<char>> {
    lines_from(s, 0)
}

/// The texts of a list of strings.
pub open spec fn texts(list: Seq<String>) -> Seq<Seq<char>> {
    list.map_values(|s: String| s@)
}

/// The lines of a text.
pub fn split_lines(text: &str) -> (lines: Vec<String>)
    ensures
        texts(lines@) == lines_of(text@),
        lines@.len() == lines_of(text@).len(),
        forall|i: int| 0 <= i < lines@.len() ==> (#[trigger] lines@[i])@ == lines_of(text@)[i],
{
    let chars: Vec<char> = chars_of(text);
    let mut lines: Vec<String> = Vec::new();
    let mut from: usize = 0;
    while from < chars.len()
        invariant
            from <= chars@.len(),
            chars@ == text@,
            texts(lines@) + lines_from(chars@, from as int) == lines_of(text@),
        decreases chars@.len() - from,
    {
        let end: usize = find_mark(&chars, '\n', from);
        let ghost before: Seq<String> = lines@;
        let ghost rest: Seq<Seq<char>> = lines_from(chars@, from as int);
        if end == chars.len() {
            let line: String = text_of(&chars, from, end);
            lines.push(line);
            from = end;
        } else {
            let stop: usize = if end > from && chars[end - 1] == '\r' {
                end - 1
            } else {
                end
            };
            let line: String = text_of(&chars, from, stop);
            assert(line@ == without_return(chars@.subrange(from as int, end as int)));
            lines.push(line);
            from = end + 1;
        }
        proof {
            assert(texts(lines@) == texts(before).push(lines@.last()@));
            assert(rest == seq![lines@.last()@] + lines_from(chars@, from as int));
            assert(texts(before) + rest == texts(lines@) + lines_from(chars@, from as int));
        }
    }
    assert(texts(lines@) + Seq::<Seq<char>>::empty() == texts(lines@));
    assert forall|i: int| 0 <= i < lines@.len() implies (#[trigger] lines@[i])@ == lines_of(text@)[i] by {
        assert(texts(lines@)[i] == lines@[i]@);
    }
    lines
}

/// The part between dots is found whatever it holds, and there is one wherever there is a dot.
pub proof fn law_segment_stands_between_dots(head: Seq<char>, body: Seq<char>, tail: Seq<char>)
    requires
        !head.contains('.'),
        !body.contains('.'),
    ensures
        second_segment(head) is None,
        second_segment(head + seq!['.'] + body) == Some(body),
        second_segment(head + seq!['.'] + body + seq!['.'] + tail) == Some(body),
{
    let first: int = head.len() as int;
    let second: int = first + 1 + body.len();
    let short: Seq<char> = head + seq!['.'] + body;
    let long: Seq<char> = short + seq!['.'] + tail;
    assert forall|i: int| 0 <= i < first implies head[i] != '.' by {
        assert(head.contains(head[i]));
    }
    lemma_find_at(head, '.', 0, first);
    assert forall|i: int| first + 1 <= i < second implies short[i] != '.' by {
        assert(short[i] == body[i - first - 1]);
        assert(body.contains(body[i - first - 1]));
    }
    lemma_find_at(short, '.', 0, first);
    lemma_find_at(short, '.', first + 1, second);
    assert(short.subrange(first + 1, second) == body);
    assert forall|i: int| first + 1 <= i < second implies long[i] != '.' by {
        assert(long[i] == short[i]);
    }
    lemma_find_at(long, '.', 0, first);
    lemma_find_at(long, '.', first + 1, second);
    assert(long.subrange(first + 1, second) == body);
}

/// A search looks at nothing before the place from which it starts.
proof fn lemma_find_shift(head: Seq<char>, s: Seq<char>, mark: char, from: int)
    requires
        0 <= from <= s.len(),
    ensures
        find_from(head + s, mark, head.len() + from) == head.len() + find_from(s, mark, from),
    decreases s.len() - from,
{
    if from < s.len() {
        assert((head + s)[head.len() + from] == s[from]);
        if s[from] != mark {
            lemma_find_shift(head, s, mark, from + 1);
        }
    }
}

/// What stands before the place from which lines are taken makes no difference to them.
proof fn lemma_lines_shift(head: Seq<char>, s: Seq<char>, from: int)
    requires
        0 <= from <= s.len(),
    ensures
        lines_from(head + s, head.len() + from) == lines_from(s, from),
    decreases s.len() - from,
{
    let whole: Seq<char> = head + s;
    if from < s.len() {
        lemma_find_shift(head, s, '\n', from);
        lemma_find_bounds(s, '\n', from);
        let end: int = find_from(s, '\n', from);
        assert(whole.subrange(head.len() + from, head.len() + end) == s.subrange(from, end));
        if end < s.len() {
            lemma_lines_shift(head, s, end + 1);
            assert(head.len() + (end + 1) == (head.len() + end) + 1);
        }
    }
}

/// Each newline ends a line, together with the carriage return before it where there is one; what
/// follows the last newline is a line as it stands, where it is not empty.
pub proof fn law_lines_end_at_newlines(line: Seq<char>, rest: Seq<char>)
    requires
        !line.contains('\n'),
    ensures
        lines_of(line + seq!['\n'] + rest) == seq![
            if line.len() > 0 && line.last() == '\r' {
                line.drop_last()
            } else {
                line
            },
        ] + lines_of(rest),
        line.len() > 0 ==> lines_of(line) == seq![line],
        lines_of(Seq::empty()) == Seq::<Seq<char>>::empty(),
{
    let n: int = line.len() as int;
    let head: Seq<char> = line + seq!['\n'];
    let whole: Seq<char> = head + rest;
    assert forall|i: int| 0 <= i < n implies line[i] != '\n' by {
        assert(line.contains(line[i]));
    }
    assert forall|i: int| 0 <= i < n implies whole[i] != '\n' by {
        assert(whole[i] == line[i]);
    }
    assert(whole[n] == '\n');
    lemma_find_at(whole, '\n', 0, n);
    assert(whole.subrange(0, n) == line);
    lemma_lines_shift(head, rest, 0);
    if n > 0 {
        lemma_find_at(line, '\n', 0, n);
        assert(line.subrange(0, n) == line);
    }
}

} // verus!
