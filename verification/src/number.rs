//! Numbers as the platform's attribute files write them: decimal notation
//! with an optional sign, an optional fraction and an optional exponent.
//!
//! A number is held as its whole part in an `i64`: what stands before the
//! decimal point once the exponent has moved the point, the fraction
//! dropped, and values beyond the range of `i64` held at its nearest end. A
//! reading file counts thousandths of a degree, so it is a fraction of a
//! thousandth of a degree that is dropped.

use crate::text::{
    all_digits, chars_of, decimal_text, digit_char, digit_value, digits_value, has_sign,
    integer_value, is_digit, is_integer_text, lemma_digit_char, saturated, unsigned_part,
};
use vstd::prelude::*;

verus! {

/// The number of characters of `s` that stand before the first `a` or `b`:
/// all of them where neither occurs.
pub open spec fn leading_len(s: Seq<char>, a: char, b: char) -> int
    decreases s.len(),
{
    if s.len() == 0 || s.first() == a || s.first() == b {
        0
    } else {
        1 + leading_len(s.drop_first(), a, b)
    }
}

/// The parts of a number's text.
pub struct DecimalParts {
    /// Whether the text begins with a minus sign.
    pub negative: bool,
    /// What stands before the decimal point.
    pub whole: Seq<char>,
    /// What stands after the decimal point and before the exponent mark.
    pub fraction: Seq<char>,
    /// What stands after the exponent mark `e` or `E`, if there is one.
    pub exponent: Option<Seq<char>>,
}

/// The parts of `s`: after an optional sign, the text up to the first
/// exponent mark is split at its first point, and what follows the mark is
/// the exponent.
pub open spec fn decimal_parts(s: Seq<char>) -> DecimalParts {
    let body = unsigned_part(s);
    let mark = leading_len(body, 'e', 'E');
    let mantissa = body.take(mark);
    let point = leading_len(mantissa, '.', '.');
    DecimalParts {
        negative: has_sign(s) && s[0] == '-',
        whole: mantissa.take(point),
        fraction: if point < mantissa.len() {
            mantissa.skip(point + 1)
        } else {
            Seq::empty()
        },
        exponent: if mark < body.len() {
            Some(body.skip(mark + 1))
        } else {
            None
        },
    }
}

/// Whether `s` writes a number in decimal notation: an optional sign; then
/// digits, of which some may follow a point, and at least one in all; then,
/// optionally, an exponent mark and a decimal integer.
pub open spec fn is_decimal_text(s: Seq<char>) -> bool {
    let parts = decimal_parts(s);
    &&& all_digits(parts.whole)
    &&& all_digits(parts.fraction)
    &&& parts.whole.len() + parts.fraction.len() > 0
    &&& parts.exponent is Some ==> is_integer_text(parts.exponent.unwrap())
}

/// The power of ten that the exponent of `parts` names: zero without one.
pub open spec fn exponent_of(parts: DecimalParts) -> int {
    match parts.exponent {
        Some(text) => integer_value(text),
        None => 0,
    }
}

/// `count` zeros.
pub open spec fn zeros(count: nat) -> Seq<char> {
    Seq::new(count, |i: int| '0')
}

/// The digits that stand before the decimal point when the point stands
/// after the first `point` of `digits`: none where `point` is not positive,
/// and `digits` followed by zeros where it is beyond their end.
pub open spec fn whole_digits(digits: Seq<char>, point: int) -> Seq<char> {
    if point <= 0 {
        Seq::empty()
    } else if point <= digits.len() {
        digits.take(point)
    } else {
        digits + zeros((point - digits.len()) as nat)
    }
}

/// The whole part of the number that `s` writes: the digits before the
/// decimal point once the exponent has moved the point, with the sign. The
/// fraction is dropped, so the whole part is never further from zero than
/// the number.
pub open spec fn whole_part(s: Seq<char>) -> int
    recommends
        is_decimal_text(s),
{
    let parts = decimal_parts(s);
    let magnitude = digits_value(
        whole_digits(parts.whole + parts.fraction, parts.whole.len() + exponent_of(parts)),
    );
    if parts.negative {
        -(magnitude as int)
    } else {
        magnitude as int
    }
}

/// What `s` yields when it is read as a number: nothing unless it writes a
/// number in decimal notation, and else the number's whole part, held to
/// the range of `i64`.
pub open spec fn parsed_number(s: Seq<char>) -> Option<i64> {
    if is_decimal_text(s) {
        Some(saturated(whole_part(s)))
    } else {
        None
    }
}

/// The magnitude above which a number is held: that of `i64::MIN`.
const MAGNITUDE_LIMIT: u128 = 0x8000_0000_0000_0000;

/// The magnitude above which an exponent is held. No text is long enough
/// for a larger exponent to move the point to another side of its digits.
const EXPONENT_LIMIT: u128 = 1_000_000_000_000_000_000_000_000_000_000;

/// `v`, or `limit` if `v` is beyond it.
spec fn capped(v: nat, limit: nat) -> nat {
    if v > limit {
        limit
    } else {
        v
    }
}

/// Where the first `a` or `b` stands at `k`, `k` characters lead up to it.
proof fn lemma_leading_len_at(s: Seq<char>, a: char, b: char, k: int)
    requires
        0 <= k <= s.len(),
        forall|i: int| 0 <= i < k ==> #[trigger] s[i] != a && s[i] != b,
        k == s.len() || s[k] == a || s[k] == b,
    ensures
        leading_len(s, a, b) == k,
    decreases k,
{
    if k > 0 {
        let rest = s.drop_first();
        assert(s[0] != a && s[0] != b);
        assert forall|i: int| 0 <= i < k - 1 implies #[trigger] rest[i] != a && rest[i] != b by {
            assert(rest[i] == s[i + 1]);
        }
        lemma_leading_len_at(rest, a, b, k - 1);
    }
}

/// A digit more at the end counts ten times what stood before it, and its
/// own value.
proof fn lemma_digits_value_push(s: Seq<char>, c: char)
    ensures
        digits_value(s.push(c)) == 10 * digits_value(s) + digit_value(c),
{
    assert(s.push(c).drop_last() =~= s);
}

/// Zeros at the end leave nothing as it is and make anything else grow.
proof fn lemma_zeros_grow(s: Seq<char>, count: nat)
    ensures
        digits_value(s) == 0 ==> digits_value(s + zeros(count)) == 0,
        digits_value(s) >= 1 ==> digits_value(s + zeros(count)) >= digits_value(s) + count,
    decreases count,
{
    if count == 0 {
        assert(s + zeros(0) =~= s);
    } else {
        let before = (count - 1) as nat;
        lemma_zeros_grow(s, before);
        lemma_digits_value_push(s + zeros(before), '0');
        assert(s + zeros(count) =~= (s + zeros(before)).push('0'));
    }
}

/// Once zeros at the end have left a value at nothing or taken it to the
/// limit, further zeros change nothing of what is held.
proof fn lemma_zeros_settled(s: Seq<char>, few: nat, many: nat, limit: nat)
    requires
        few <= many,
        limit >= 1,
        digits_value(s + zeros(few)) == 0 || digits_value(s + zeros(few)) >= limit,
    ensures
        capped(digits_value(s + zeros(many)), limit) == capped(
            digits_value(s + zeros(few)),
            limit,
        ),
{
    lemma_zeros_grow(s + zeros(few), (many - few) as nat);
    assert(s + zeros(few) + zeros((many - few) as nat) =~= s + zeros(many));
}

/// The place of the first `a` or `b` among the characters from `from` to
/// `to`, or `to` where neither occurs.
fn find_first(chars: &Vec<char>, from: usize, to: usize, a: char, b: char) -> (r: usize)
    requires
        from <= to <= chars@.len(),
    ensures
        from <= r <= to,
        r - from == leading_len(chars@.subrange(from as int, to as int), a, b),
{
    let mut i: usize = from;
    while i < to && chars[i] != a && chars[i] != b
        invariant
            from <= i <= to <= chars@.len(),
            forall|j: int| from <= j < i ==> #[trigger] chars@[j] != a && chars@[j] != b,
        decreases to - i,
    {
        i = i + 1;
    }
    proof {
        let part = chars@.subrange(from as int, to as int);
        assert forall|j: int| 0 <= j < i - from implies #[trigger] part[j] != a && part[j] != b by {
            assert(part[j] == chars@[j + from]);
        }
        lemma_leading_len_at(part, a, b, i - from);
    }
    i
}

/// Whether the characters from `from` to `to` are all decimal digits.
fn digits_between(chars: &Vec<char>, from: usize, to: usize) -> (r: bool)
    requires
        from <= to <= chars@.len(),
    ensures
        r == all_digits(chars@.subrange(from as int, to as int)),
{
    let ghost part = chars@.subrange(from as int, to as int);
    let mut i: usize = from;
    while i < to
        invariant
            from <= i <= to <= chars@.len(),
            part == chars@.subrange(from as int, to as int),
            forall|j: int| 0 <= j < i - from ==> is_digit(#[trigger] part[j]),
        decreases to - i,
    {
        let c: char = chars[i];
        if !('0' <= c && c <= '9') {
            assert(part[i - from] == c);
            return false;
        }
        i = i + 1;
    }
    true
}

/// Goes on counting digits: from what `before` counts to, held at `limit`,
/// to what `before` and the digits from `from` to `to` count to, held at
/// `limit`.
fn count_digits(
    acc: u128,
    chars: &Vec<char>,
    from: usize,
    to: usize,
    limit: u128,
    Ghost(before): Ghost<Seq<char>>,
) -> (r: u128)
    requires
        from <= to <= chars@.len(),
        all_digits(chars@.subrange(from as int, to as int)),
        limit <= EXPONENT_LIMIT,
        acc == capped(digits_value(before), limit as nat),
    ensures
        r == capped(digits_value(before + chars@.subrange(from as int, to as int)), limit as nat),
{
    let ghost part = chars@.subrange(from as int, to as int);
    let mut total: u128 = acc;
    let mut i: usize = from;
    assert(before + part.take(0) =~= before);
    while i < to
        invariant
            from <= i <= to <= chars@.len(),
            part == chars@.subrange(from as int, to as int),
            all_digits(part),
            limit <= EXPONENT_LIMIT,
            total == capped(digits_value(before + part.take(i - from)), limit as nat),
        decreases to - i,
    {
        let c: char = chars[i];
        assert(part[i - from] == c);
        let d: u128 = (c as u32 - '0' as u32) as u128;
        proof {
            lemma_digits_value_push(before + part.take(i - from), c);
            assert(before + part.take(i - from + 1) =~= (before + part.take(i - from)).push(c));
        }
        if total >= limit {
            total = limit;
        } else {
            total = total * 10 + d;
            if total > limit {
                total = limit;
            }
        }
        i = i + 1;
    }
    assert(part.take(to - from) =~= part);
    total
}

/// The exponent as it is held: `v`, or the exponent limit with the sign of
/// `v` where `v` is beyond it.
spec fn held_exponent(v: int) -> int {
    if v > EXPONENT_LIMIT {
        EXPONENT_LIMIT as int
    } else if v < -EXPONENT_LIMIT {
        -(EXPONENT_LIMIT as int)
    } else {
        v
    }
}

/// Where the parts of a number's text stand among its characters.
struct Layout {
    /// Whether the text begins with a minus sign.
    negative: bool,
    /// Where the digits before the point begin.
    start: usize,
    /// Where they end: at the point, or at `mark` without one.
    point: usize,
    /// Where the digits after the point begin.
    after: usize,
    /// Where they end: at the exponent mark, or at the text's end without
    /// one.
    mark: usize,
}

/// Finds the parts of a number's text.
fn layout_of(chars: &Vec<char>) -> (r: Layout)
    ensures
        r.start <= r.point <= r.after <= r.mark <= chars@.len(),
        decimal_parts(chars@).negative == r.negative,
        decimal_parts(chars@).whole == chars@.subrange(r.start as int, r.point as int),
        decimal_parts(chars@).fraction == chars@.subrange(r.after as int, r.mark as int),
        decimal_parts(chars@).exponent == if r.mark < chars@.len() {
            Some(chars@.subrange(r.mark + 1, chars@.len() as int))
        } else {
            None
        },
{
    let len: usize = chars.len();
    let negative: bool = len > 0 && chars[0] == '-';
    let start: usize = if len > 0 && (chars[0] == '+' || chars[0] == '-') {
        1
    } else {
        0
    };
    let mark: usize = find_first(chars, start, len, 'e', 'E');
    let point: usize = find_first(chars, start, mark, '.', '.');
    let after: usize = if point < mark {
        point + 1
    } else {
        mark
    };
    proof {
        let text = chars@;
        let body = unsigned_part(text);
        assert(body =~= text.subrange(start as int, len as int));
        let mantissa = body.take(mark - start);
        assert(mantissa =~= text.subrange(start as int, mark as int));
        assert(mantissa.take(point - start) =~= text.subrange(start as int, point as int));
        if point < mark {
            assert(mantissa.skip(point - start + 1) =~= text.subrange(after as int, mark as int));
        } else {
            assert(text.subrange(after as int, mark as int) =~= Seq::<char>::empty());
        }
        if mark < len {
            assert(body.skip(mark - start + 1) =~= text.subrange(mark + 1, len as int));
        }
    }
    Layout { negative, start, point, after, mark }
}

/// Reads the decimal integer that stands from `from` to the text's end, as
/// an exponent is held.
fn read_exponent(chars: &Vec<char>, from: usize) -> (r: Option<i128>)
    requires
        from <= chars@.len(),
    ensures
        r is Some <==> is_integer_text(chars@.subrange(from as int, chars@.len() as int)),
        r is Some ==> r.unwrap() == held_exponent(
            integer_value(chars@.subrange(from as int, chars@.len() as int)),
        ),
{
    let len: usize = chars.len();
    let falling: bool = from < len && chars[from] == '-';
    let first: usize = if from < len && (chars[from] == '+' || chars[from] == '-') {
        from + 1
    } else {
        from
    };
    let ghost power = chars@.subrange(from as int, len as int);
    assert(unsigned_part(power) =~= chars@.subrange(first as int, len as int));
    if first == len {
        return None;
    }
    if !digits_between(chars, first, len) {
        return None;
    }
    let size: u128 = count_digits(0, chars, first, len, EXPONENT_LIMIT, Ghost(Seq::empty()));
    assert(Seq::<char>::empty() + chars@.subrange(first as int, len as int) =~= chars@.subrange(
        first as int,
        len as int,
    ));
    if falling {
        Some(-(size as i128))
    } else {
        Some(size as i128)
    }
}

/// Counts the first `count` of the digits that stand from `start` to
/// `point` and from `after` to `mark`.
fn count_leading(
    chars: &Vec<char>,
    start: usize,
    point: usize,
    after: usize,
    mark: usize,
    count: usize,
) -> (r: u128)
    requires
        start <= point <= after <= mark <= chars@.len(),
        all_digits(chars@.subrange(start as int, point as int)),
        all_digits(chars@.subrange(after as int, mark as int)),
        count <= (point - start) + (mark - after),
    ensures
        r == capped(
            digits_value(
                (chars@.subrange(start as int, point as int) + chars@.subrange(
                    after as int,
                    mark as int,
                )).take(count as int),
            ),
            MAGNITUDE_LIMIT as nat,
        ),
{
    let ghost whole = chars@.subrange(start as int, point as int);
    let ghost fraction = chars@.subrange(after as int, mark as int);
    if count <= point - start {
        let stop: usize = start + count;
        assert forall|i: int| 0 <= i < count implies is_digit(
            #[trigger] chars@.subrange(start as int, stop as int)[i],
        ) by {
            assert(chars@.subrange(start as int, stop as int)[i] == whole[i]);
        }
        assert((whole + fraction).take(count as int) =~= Seq::<char>::empty() + chars@.subrange(
            start as int,
            stop as int,
        ));
        count_digits(0, chars, start, stop, MAGNITUDE_LIMIT, Ghost(Seq::empty()))
    } else {
        let head: u128 = count_digits(0, chars, start, point, MAGNITUDE_LIMIT, Ghost(Seq::empty()));
        assert(Seq::<char>::empty() + whole =~= whole);
        let stop: usize = after + (count - (point - start));
        assert forall|i: int| 0 <= i < stop - after implies is_digit(
            #[trigger] chars@.subrange(after as int, stop as int)[i],
        ) by {
            assert(chars@.subrange(after as int, stop as int)[i] == fraction[i]);
        }
        assert((whole + fraction).take(count as int) =~= whole + chars@.subrange(
            after as int,
            stop as int,
        ));
        count_digits(head, chars, after, stop, MAGNITUDE_LIMIT, Ghost(whole))
    }
}

/// Goes on counting through `extra` zeros after `digits`.
fn count_zeros(acc: u128, extra: i128, Ghost(digits): Ghost<Seq<char>>) -> (r: u128)
    requires
        0 <= extra,
        acc == capped(digits_value(digits), MAGNITUDE_LIMIT as nat),
    ensures
        r == capped(digits_value(digits + zeros(extra as nat)), MAGNITUDE_LIMIT as nat),
{
    let mut total: u128 = acc;
    let mut done: i128 = 0;
    assert(digits + zeros(0) =~= digits);
    while done < extra && total != 0 && total < MAGNITUDE_LIMIT
        invariant
            0 <= done <= extra,
            total == capped(digits_value(digits + zeros(done as nat)), MAGNITUDE_LIMIT as nat),
        decreases extra - done,
    {
        proof {
            lemma_digits_value_push(digits + zeros(done as nat), '0');
            assert(digits + zeros((done + 1) as nat) =~= (digits + zeros(done as nat)).push('0'));
        }
        total = total * 10;
        if total > MAGNITUDE_LIMIT {
            total = MAGNITUDE_LIMIT;
        }
        done = done + 1;
    }
    proof {
        if done < extra {
            lemma_zeros_settled(digits, done as nat, extra as nat, MAGNITUDE_LIMIT as nat);
        }
    }
    total
}

/// The magnitude of the whole part of the number whose digits stand from
/// `start` to `point` and from `after` to `mark`, under the exponent
/// `moved`, which is handed over as it is held.
fn whole_magnitude(
    chars: &Vec<char>,
    start: usize,
    point: usize,
    after: usize,
    mark: usize,
    exponent: i128,
    Ghost(moved): Ghost<int>,
) -> (r: u128)
    requires
        start <= point <= after <= mark <= chars@.len(),
        all_digits(chars@.subrange(start as int, point as int)),
        all_digits(chars@.subrange(after as int, mark as int)),
        exponent == held_exponent(moved),
    ensures
        r == capped(
            digits_value(
                whole_digits(
                    chars@.subrange(start as int, point as int) + chars@.subrange(
                        after as int,
                        mark as int,
                    ),
                    point - start + moved,
                ),
            ),
            MAGNITUDE_LIMIT as nat,
        ),
{
    let ghost digits = chars@.subrange(start as int, point as int) + chars@.subrange(
        after as int,
        mark as int,
    );
    let ghost place = point - start + moved;
    let whole_count: i128 = (point - start) as i128;
    let digit_count: i128 = whole_count + (mark - after) as i128;
    let shifted: i128 = whole_count + exponent;
    if shifted <= 0 {
        assert(whole_digits(digits, place) =~= Seq::<char>::empty());
        0
    } else if shifted <= digit_count {
        assert(place == shifted);
        count_leading(chars, start, point, after, mark, shifted as usize)
    } else {
        let full: u128 = count_leading(
            chars,
            start,
            point,
            after,
            mark,
            (point - start) + (mark - after),
        );
        assert(digits.take(digits.len() as int) =~= digits);
        let extra: i128 = shifted - digit_count;
        let held: u128 = count_zeros(full, extra, Ghost(digits));
        proof {
            let beyond = place - digits.len();
            if beyond != extra {
                lemma_zeros_grow(digits, extra as nat);
                lemma_zeros_settled(digits, extra as nat, beyond as nat, MAGNITUDE_LIMIT as nat);
            }
        }
        held
    }
}

/// Reads `s` as a number in decimal notation and returns its whole part.
/// Text that writes no such number yields nothing; a whole part that `i64`
/// cannot hold yields the `i64` nearest to it.
pub fn parse_number(s: &str) -> (r: Option<i64>)
    ensures
        r == parsed_number(s@),
{
    let chars = chars_of(s);
    let len: usize = chars.len();
    let at = layout_of(&chars);
    if !digits_between(&chars, at.start, at.point) {
        return None;
    }
    if !digits_between(&chars, at.after, at.mark) {
        return None;
    }
    if at.point == at.start && at.mark == at.after {
        return None;
    }
    let mut exponent: i128 = 0;
    if at.mark < len {
        match read_exponent(&chars, at.mark + 1) {
            Some(held) => {
                exponent = held;
            },
            None => {
                return None;
            },
        }
    }
    let ghost moved = exponent_of(decimal_parts(s@));
    let magnitude: u128 = whole_magnitude(
        &chars,
        at.start,
        at.point,
        at.after,
        at.mark,
        exponent,
        Ghost(moved),
    );
    if at.negative {
        if magnitude >= MAGNITUDE_LIMIT {
            Some(i64::MIN)
        } else {
            Some(-(magnitude as i64))
        }
    } else {
        if magnitude > i64::MAX as u128 {
            Some(i64::MAX)
        } else {
            Some(magnitude as i64)
        }
    }
}

/// Ten to the power of `k`.
pub open spec fn power_of_ten(k: nat) -> nat
    decreases k,
{
    if k == 0 {
        1
    } else {
        10 * power_of_ten((k - 1) as nat)
    }
}

/// Powers of ten are positive and grow with the exponent.
pub proof fn lemma_power_of_ten_grows(low: nat, high: nat)
    requires
        low <= high,
    ensures
        1 <= power_of_ten(low) <= power_of_ten(high),
    decreases high,
{
    if low < high {
        lemma_power_of_ten_grows(low, (high - 1) as nat);
    } else if low > 0 {
        lemma_power_of_ten_grows((low - 1) as nat, (low - 1) as nat);
    }
}

/// Digits split at any place into what the first of them count, scaled by
/// the power of ten of the places that follow, and what the rest count,
/// which is less than that power.
pub proof fn lemma_digits_split(s: Seq<char>, place: int)
    requires
        all_digits(s),
        0 <= place <= s.len(),
    ensures
        digits_value(s) == digits_value(s.take(place)) * power_of_ten((s.len() - place) as nat)
            + digits_value(s.skip(place)),
        digits_value(s.skip(place)) < power_of_ten((s.len() - place) as nat),
    decreases s.len(),
{
    if place == s.len() {
        assert(s.take(place) =~= s);
        assert(s.skip(place) =~= Seq::<char>::empty());
        assert(power_of_ten(0) == 1);
        assert(digits_value(s) * 1 == digits_value(s));
    } else {
        let front = s.drop_last();
        assert forall|i: int| 0 <= i < front.len() implies is_digit(#[trigger] front[i]) by {
            assert(front[i] == s[i]);
        }
        lemma_digits_split(front, place);
        assert(front.take(place) =~= s.take(place));
        assert(s.skip(place).drop_last() =~= front.skip(place));
        assert(s.skip(place).last() == s.last());
        assert(is_digit(s[s.len() - 1]));
        let head = digits_value(s.take(place));
        let scale = power_of_ten((front.len() - place) as nat);
        let rest = digits_value(front.skip(place));
        let last = digit_value(s.last());
        assert(power_of_ten((s.len() - place) as nat) == 10 * scale);
        assert(digits_value(s) == 10 * (head * scale + rest) + last);
        assert(digits_value(s.skip(place)) == 10 * rest + last);
        assert(10 * (head * scale + rest) + last == head * (10 * scale) + (10 * rest + last))
            by (nonlinear_arith);
    }
}

/// Zeros at the end scale by their power of ten.
pub proof fn lemma_zeros_scale(s: Seq<char>, count: nat)
    ensures
        digits_value(s + zeros(count)) == digits_value(s) * power_of_ten(count),
    decreases count,
{
    if count == 0 {
        assert(s + zeros(0) =~= s);
        assert(power_of_ten(0) == 1);
        assert(digits_value(s) * 1 == digits_value(s));
    } else {
        let before = (count - 1) as nat;
        lemma_zeros_scale(s, before);
        assert(power_of_ten(count) == 10 * power_of_ten(before));
        lemma_digits_value_push(s + zeros(before), '0');
        assert(s + zeros(count) =~= (s + zeros(before)).push('0'));
        let value = digits_value(s);
        let scale = power_of_ten(before);
        assert(10 * (value * scale) == value * (10 * scale)) by (nonlinear_arith);
    }
}

/// The magnitude of the number that the parts write, as a whole number and
/// a power of ten: the digits before and after the point, read as one whole
/// number, times ten to the power of `scale_of`.
pub open spec fn digits_of(parts: DecimalParts) -> nat {
    digits_value(parts.whole + parts.fraction)
}

/// The power of ten by which `digits_of` is to be scaled: the exponent, less
/// one for each digit after the point.
pub open spec fn scale_of(parts: DecimalParts) -> int {
    exponent_of(parts) - parts.fraction.len()
}

/// The whole part is the number with its fraction dropped. The number that
/// a text writes is `digits_of` times ten to the power of `scale_of`, with
/// the sign; where that power is not negative the whole part is the number
/// itself, and where it is negative the whole part is the quotient of the
/// division by the power of ten, the remainder left out.
pub proof fn lemma_whole_part_drops_fraction(s: Seq<char>)
    requires
        is_decimal_text(s),
    ensures
        decimal_parts(s).negative ==> whole_part(s) <= 0,
        !decimal_parts(s).negative ==> whole_part(s) >= 0,
        scale_of(decimal_parts(s)) >= 0 ==> vstd::math::abs(whole_part(s)) == digits_of(
            decimal_parts(s),
        ) * power_of_ten(scale_of(decimal_parts(s)) as nat),
        scale_of(decimal_parts(s)) < 0 ==> vstd::math::abs(whole_part(s)) == digits_of(
            decimal_parts(s),
        ) / power_of_ten((-scale_of(decimal_parts(s))) as nat),
        scale_of(decimal_parts(s)) < 0 ==> vstd::math::abs(whole_part(s)) * power_of_ten(
            (-scale_of(decimal_parts(s))) as nat,
        ) <= digits_of(decimal_parts(s)) < (vstd::math::abs(whole_part(s)) + 1) * power_of_ten(
            (-scale_of(decimal_parts(s))) as nat,
        ),
{
    let parts = decimal_parts(s);
    let digits = parts.whole + parts.fraction;
    let place = parts.whole.len() + exponent_of(parts);
    let scale = scale_of(parts);
    assert(place - digits.len() == scale);
    assert forall|i: int| 0 <= i < digits.len() implies is_digit(#[trigger] digits[i]) by {
        if i < parts.whole.len() {
            assert(digits[i] == parts.whole[i]);
        } else {
            assert(digits[i] == parts.fraction[i - parts.whole.len()]);
        }
    }
    if scale >= 0 {
        if scale == 0 {
            assert(digits.take(place) =~= digits);
            let unit = power_of_ten(0);
            assert(unit == 1);
            assert(digits_of(parts) * unit == digits_of(parts)) by (nonlinear_arith)
                requires
                    unit == 1,
            ;
        } else {
            lemma_zeros_scale(digits, scale as nat);
        }
    } else {
        let power = power_of_ten((-scale) as nat);
        lemma_power_of_ten_grows(0, (-scale) as nat);
        let quotient = digits_of(parts) as int / power as int;
        assert(quotient * power <= digits_of(parts) < (quotient + 1) * power) by (nonlinear_arith)
            requires
                quotient == digits_of(parts) as int / power as int,
                power > 0,
        ;
        if place <= 0 {
            lemma_digits_split(digits, 0);
            assert(digits.skip(0) =~= digits);
            lemma_power_of_ten_grows(digits.len(), (-scale) as nat);
            vstd::arithmetic::div_mod::lemma_basic_div(digits_of(parts) as int, power as int);
        } else {
            lemma_digits_split(digits, place);
            lemma_power_of_ten_grows(0, (-scale) as nat);
            vstd::arithmetic::div_mod::lemma_fundamental_div_mod_converse(
                digits_of(parts) as int,
                power as int,
                digits_value(digits.take(place)) as int,
                digits_value(digits.skip(place)) as int,
            );
        }
    }
}

/// A decimal integer is a number in decimal notation, and is its own whole
/// part.
pub proof fn lemma_integer_text_is_number(s: Seq<char>)
    requires
        is_integer_text(s),
    ensures
        is_decimal_text(s),
        whole_part(s) == integer_value(s),
        parsed_number(s) == Some(saturated(integer_value(s))),
{
    let body = unsigned_part(s);
    assert forall|i: int| 0 <= i < body.len() implies #[trigger] body[i] != 'e' && body[i] != 'E'
        && body[i] != '.' by {
        assert(is_digit(body[i]));
    }
    lemma_leading_len_at(body, 'e', 'E', body.len() as int);
    assert(body.take(body.len() as int) =~= body);
    lemma_leading_len_at(body, '.', '.', body.len() as int);
    let parts = decimal_parts(s);
    assert(parts.whole =~= body);
    assert(parts.whole + parts.fraction =~= body);
}

/// The decimal text of a number reads back as that number: it is a decimal
/// integer without a sign, and its value is the number it was written from.
pub proof fn lemma_decimal_text_reads_back(n: nat)
    ensures
        is_integer_text(decimal_text(n)),
        !has_sign(decimal_text(n)),
        integer_value(decimal_text(n)) == n,
        parsed_number(decimal_text(n)) == Some(saturated(n as int)),
    decreases n,
{
    let text = decimal_text(n);
    if n < 10 {
        lemma_digit_char(n);
        assert(text.drop_last() =~= Seq::<char>::empty());
        assert(digits_value(text.drop_last()) == 0);
        assert(text.last() == digit_char(n));
    } else {
        let front = decimal_text(n / 10);
        lemma_decimal_text_reads_back(n / 10);
        lemma_digit_char(n % 10);
        assert(text.drop_last() =~= front);
        assert(text.last() == digit_char(n % 10));
        assert(text[0] == front[0]);
        assert forall|i: int| 0 <= i < text.len() implies is_digit(#[trigger] text[i]) by {
            if i < front.len() {
                assert(text[i] == front[i]);
            }
        }
    }
    lemma_integer_text_is_number(text);
}

} // verus!
