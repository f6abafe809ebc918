//! Numbers with six decimals, kept as whole millionths: reading, adding and
//! writing them. Two of the values stand for what is infinite, and one for what
//! is not a number.

use vstd::prelude::*;
use crate::text::all_digits;
use crate::text::ascii_lower;
use crate::text::chars_of;
use crate::text::decimal;
use crate::text::decimal_text;
use crate::text::digit_char;
use crate::text::digits_value;
use crate::text::is_digit;
use crate::text::text_eq;
use crate::text::text_of;
use crate::text::to_ascii_lowercase;

verus! {

// Reading --------------------------------------------------------------------

/// The first `n` digits, with zeros where there are no more.
pub open spec fn first_digits(digits: Seq<char>, n: int) -> Seq<char> {
    if n <= digits.len() {
        digits.take(n)
    } else {
        digits + Seq::new((n - digits.len()) as nat, |i: int| '0')
    }
}

/// The number that the first `n` digits write, rounded by the digit behind
/// them.
pub open spec fn rounded(digits: Seq<char>, n: int) -> nat {
    if n < 0 {
        0
    } else if n < digits.len() && digits[n] >= '5' {
        digits_value(first_digits(digits, n)) + 1
    } else {
        digits_value(first_digits(digits, n))
    }
}

/// The largest number of millionths that is told from larger ones.
pub const MOST: i64 = i64::MAX - 1;

/// What is larger than every number. Its negative is smaller than every number.
pub const INFINITE: i64 = i64::MAX;

/// What is not a number, and neither smaller nor larger than any.
pub const NOT_A_NUMBER: i64 = i64::MIN;

pub open spec fn at_most(x: nat) -> nat {
    if x > MOST {
        MOST as nat
    } else {
        x
    }
}

/// The text without a sign in front.
pub open spec fn unsigned_part(s: Seq<char>) -> Seq<char> {
    if s.len() > 0 && (s[0] == '+' || s[0] == '-') {
        s.skip(1)
    } else {
        s
    }
}

pub open spec fn is_negative(s: Seq<char>) -> bool {
    s.len() > 0 && s[0] == '-'
}

/// The first position at or after `from` of a character that starts an
/// exponent; the end where there is none.
pub open spec fn exponent_start(s: Seq<char>, from: int) -> int
    decreases s.len() - from,
{
    if from < 0 || from >= s.len() {
        s.len() as int
    } else if s[from] == 'e' || s[from] == 'E' {
        from
    } else {
        exponent_start(s, from + 1)
    }
}

/// The first position at or after `from` of a point; the end where there is
/// none.
pub open spec fn point_start(s: Seq<char>, from: int) -> int
    decreases s.len() - from,
{
    if from < 0 || from >= s.len() {
        s.len() as int
    } else if s[from] == '.' {
        from
    } else {
        point_start(s, from + 1)
    }
}

/// The digits in front of the point.
pub open spec fn whole_digits(mantissa: Seq<char>) -> Seq<char> {
    mantissa.take(point_start(mantissa, 0))
}

/// The digits behind the point.
pub open spec fn fraction_digits(mantissa: Seq<char>) -> Seq<char> {
    let at = point_start(mantissa, 0);
    if at < mantissa.len() {
        mantissa.skip(at + 1)
    } else {
        seq![]
    }
}

pub open spec fn is_mantissa(mantissa: Seq<char>) -> bool {
    &&& all_digits(whole_digits(mantissa))
    &&& all_digits(fraction_digits(mantissa))
    &&& whole_digits(mantissa).len() + fraction_digits(mantissa).len() > 0
}

/// The exponent that stands behind position `at`, zero where nothing does.
pub open spec fn exponent_at(s: Seq<char>, at: int) -> Option<int> {
    if at >= s.len() {
        Some(0)
    } else {
        let part = s.skip(at + 1);
        let digits = unsigned_part(part);
        if digits.len() == 0 || !all_digits(digits) {
            None
        } else if is_negative(part) {
            Some(-(digits_value(digits) as int))
        } else {
            Some(digits_value(digits) as int)
        }
    }
}

/// The millionths that a number without a sign writes: digits with or without
/// a point among them, and an exponent or none.
pub open spec fn magnitude(s: Seq<char>) -> Option<nat> {
    let at = exponent_start(s, 0);
    let mantissa = s.take(at);
    match exponent_at(s, at) {
        Some(exponent) => if is_mantissa(mantissa) {
            Some(
                at_most(
                    rounded(
                        whole_digits(mantissa) + fraction_digits(mantissa),
                        whole_digits(mantissa).len() + exponent + 6,
                    ),
                ),
            )
        } else {
            None
        },
        None => None,
    }
}

pub open spec fn is_infinity(s: Seq<char>) -> bool {
    ascii_lower(s) == "inf"@ || ascii_lower(s) == "infinity"@
}

pub open spec fn is_no_number(s: Seq<char>) -> bool {
    ascii_lower(s) == "nan"@
}

/// The millionths that `s` writes: a number in decimals, rounded to the nearest
/// millionth, as far as it can be told from larger ones; or what is infinite, or
/// not a number, where `s` says so.
pub open spec fn micros_of(s: Seq<char>) -> Option<int> {
    let part = unsigned_part(s);
    let size = if is_infinity(part) {
        Some(INFINITE as nat)
    } else {
        magnitude(part)
    };
    if is_no_number(part) {
        Some(NOT_A_NUMBER as int)
    } else {
        match size {
            Some(n) => Some(
                if is_negative(s) {
                    -(n as int)
                } else {
                    n as int
                },
            ),
            None => None,
        }
    }
}

// Adding and comparing -------------------------------------------------------

pub open spec fn is_finite(x: int) -> bool {
    -MOST <= x <= MOST
}

/// `x < y`, which holds of no value that is not a number.
pub open spec fn below(x: int, y: int) -> bool {
    x != NOT_A_NUMBER && y != NOT_A_NUMBER && x < y
}

/// `x <= y`, which holds of no value that is not a number.
pub open spec fn upto(x: int, y: int) -> bool {
    x != NOT_A_NUMBER && y != NOT_A_NUMBER && x <= y
}

/// `x`, as far as it can be told from larger numbers.
pub open spec fn clamped(x: int) -> int {
    if x > MOST {
        MOST as int
    } else if x < -MOST {
        -MOST
    } else {
        x
    }
}

/// The sum of two values: not a number where one is none, or where both are
/// infinite with different signs.
pub open spec fn sum_of(x: int, y: int) -> int {
    if is_finite(x) && is_finite(y) {
        clamped(x + y)
    } else if is_finite(x) {
        y
    } else if is_finite(y) || x == y {
        x
    } else {
        NOT_A_NUMBER as int
    }
}

/// The value with the other sign.
pub open spec fn opposite(x: int) -> int {
    if x == NOT_A_NUMBER {
        x
    } else {
        -x
    }
}

/// The larger of the value and zero; zero where it is not a number.
pub open spec fn at_least_zero(x: int) -> int {
    if x < 0 {
        0
    } else {
        x
    }
}

// Writing --------------------------------------------------------------------

/// The last `width` decimal digits of `n`.
pub open spec fn padded(n: nat, width: nat) -> Seq<char>
    decreases width,
{
    if width == 0 {
        seq![]
    } else {
        padded(n / 10, (width - 1) as nat).push(digit_char(n % 10))
    }
}

pub open spec fn size_of(us: int) -> nat {
    if us < 0 {
        (-us) as nat
    } else {
        us as nat
    }
}

/// The word for a value that is infinite or not a number.
pub open spec fn endless(us: int) -> Seq<char> {
    if us == INFINITE {
        "inf"@
    } else if us == -INFINITE {
        "-inf"@
    } else {
        "NaN"@
    }
}

/// A number of millionths with all six decimals.
pub open spec fn six_decimals(us: int) -> Seq<char> {
    let size = size_of(us);
    if is_finite(us) {
        (if us < 0 {
            seq!['-']
        } else {
            seq![]
        }) + decimal(size / 1_000_000) + seq!['.'] + padded(size % 1_000_000, 6)
    } else {
        endless(us)
    }
}

/// A number of millionths with the decimals that it has, and no point where it
/// has none.
pub open spec fn shortest(us: int) -> Seq<char> {
    let size = size_of(us);
    if is_finite(us) {
        (if us < 0 {
            seq!['-']
        } else {
            seq![]
        }) + decimal(size / 1_000_000) + if size % 1_000_000 == 0 {
            seq![]
        } else {
            seq!['.'] + crate::text::strip_end(padded(size % 1_000_000, 6), '0')
        }
    } else {
        endless(us)
    }
}

/// A number of thousandths with four decimals.
pub open spec fn four_decimals(ms: nat) -> Seq<char> {
    decimal(ms / 1000) + seq!['.'] + padded(ms % 1000, 3) + seq!['0']
}

// ---------------------------------------------------------------------------

proof fn lemma_value_push(s: Seq<char>, c: char)
    ensures
        digits_value(s.push(c)) == digits_value(s) * 10 + (c as nat - 48) as nat,
{
    assert(s.push(c).drop_last() =~= s);
}

/// Zeros behind digits multiply what they write.
proof fn lemma_zeros_keep_order(digits: Seq<char>, n: int, m: int)
    requires
        digits.len() <= n <= m,
    ensures
        digits_value(first_digits(digits, n)) <= digits_value(first_digits(digits, m)),
        digits_value(first_digits(digits, n)) == 0 ==> digits_value(first_digits(digits, m)) == 0,
    decreases m,
{
    if n < m {
        lemma_zeros_keep_order(digits, n, m - 1);
        lemma_next_zero(digits, m - 1);
    } else {
        assert(n == m);
    }
}

proof fn lemma_next_zero(digits: Seq<char>, n: int)
    requires
        digits.len() <= n,
    ensures
        digits_value(first_digits(digits, n + 1)) == digits_value(first_digits(digits, n)) * 10,
{
    assert(first_digits(digits, n + 1) =~= first_digits(digits, n).push('0'));
    lemma_value_push(first_digits(digits, n), '0');
}

/// Twenty zeros behind digits that are not all zero write more than can be told
/// from larger numbers.
proof fn lemma_far_digits(digits: Seq<char>, n: int, m: int)
    requires
        digits.len() + 20 <= n,
        digits.len() + 20 <= m,
    ensures
        at_most(digits_value(first_digits(digits, n))) == at_most(
            digits_value(first_digits(digits, m)),
        ),
{
    let len = digits.len() as int;
    lemma_twenty_zeros(digits, 20);
    assert(first_digits(digits, len) =~= digits);
    let value = digits_value(digits) as int;
    let factor = ten_to(20) as int;
    assert(value >= 1 ==> value * factor >= factor) by (nonlinear_arith)
        requires
            factor >= 0,
    ;
    lemma_zeros_keep_order(digits, len, len + 20);
    lemma_zeros_keep_order(digits, len + 20, n);
    lemma_zeros_keep_order(digits, len + 20, m);
}

proof fn lemma_twenty_zeros(digits: Seq<char>, k: nat)
    requires
        k <= 20,
    ensures
        digits_value(first_digits(digits, (digits.len() + k) as int)) == digits_value(digits)
            * ten_to(k),
        ten_to(20) > MOST,
    decreases k,
{
    reveal_with_fuel(ten_to, 21);
    if k == 0 {
        assert(first_digits(digits, digits.len() as int) =~= digits);
        assert(ten_to(k) == 1);
    } else {
        lemma_twenty_zeros(digits, (k - 1) as nat);
        lemma_next_zero(digits, digits.len() + k - 1);
        let value = digits_value(digits) as int;
        let before = ten_to((k - 1) as nat) as int;
        assert(value * before * 10 == value * (before * 10)) by (nonlinear_arith);
        assert(digits.len() + k - 1 + 1 == (digits.len() + k) as int);
        assert(digits_value(first_digits(digits, (digits.len() + k) as int)) == value * before * 10);
        assert(ten_to(k) == before * 10);
        assert(value * (before * 10) == digits_value(digits) * ten_to(k));
    }
}

spec fn ten_to(k: nat) -> nat
    decreases k,
{
    if k == 0 {
        1
    } else {
        ten_to((k - 1) as nat) * 10
    }
}

/// The first `n` digits as a number, as far as it can be told from larger ones,
/// with zeros where there are no more digits.
fn digits_upto(digits: &Vec<char>, n: u128) -> (r: u64)
    requires
        all_digits(digits@),
    ensures
        r == at_most(digits_value(first_digits(digits@, n as int))),
{
    let mut value: u64 = 0;
    let mut i: usize = 0;
    let count: usize = digits.len();
    assert(first_digits(digits@, 0) =~= seq![]);
    while i < count && (i as u128) < n
        invariant
            i <= n,
            i <= count,
            count == digits@.len(),
            all_digits(digits@),
            value == at_most(digits_value(first_digits(digits@, i as int))),
        decreases count - i,
    {
        let c: char = digits[i];
        assert(is_digit(digits@[i as int]));
        assert(first_digits(digits@, i + 1) =~= first_digits(digits@, i as int).push(c));
        proof {
            lemma_value_push(first_digits(digits@, i as int), c);
        }
        let next: u128 = value as u128 * 10 + (c as u128 - 48);
        value = if next > MOST as u128 {
            MOST as u64
        } else {
            next as u64
        };
        i = i + 1;
    }
    let mut j: u128 = i as u128;
    while j < n && value > 0 && value < MOST as u64
        invariant
            j <= n,
            j < n ==> count <= j,
            count == digits@.len(),
            value <= MOST,
            value == at_most(digits_value(first_digits(digits@, j as int))),
        decreases n - j,
    {
        proof {
            lemma_next_zero(digits@, j as int);
        }
        let next: u128 = value as u128 * 10;
        value = if next > MOST as u128 {
            MOST as u64
        } else {
            next as u64
        };
        j = j + 1;
    }
    proof {
        if j < n {
            lemma_zeros_keep_order(digits@, j as int, n as int);
        }
    }
    value
}

/// How far an exponent is followed: beyond, every number is zero or more than
/// can be told from larger ones.
const FAR: u128 = 0x1000_0000_0000_0000_0000_0000;

/// The number that the digits `s[from..]` write, followed as far as `FAR`.
fn exponent_value(s: &Vec<char>, from: usize) -> (r: u128)
    requires
        from <= s@.len(),
        all_digits(s@.skip(from as int)),
    ensures
        r == digits_value(s@.skip(from as int)) || (r == FAR && digits_value(s@.skip(from as int))
            > FAR),
        r <= FAR,
{
    let ghost digits = s@.skip(from as int);
    let mut value: u128 = 0;
    let mut over: bool = false;
    let mut i: usize = from;
    assert(digits.take(0) =~= seq![]);
    while i < s.len()
        invariant
            from <= i <= s@.len(),
            digits == s@.skip(from as int),
            all_digits(digits),
            value <= FAR,
            !over ==> value == digits_value(digits.take(i - from)),
            over ==> digits_value(digits.take(i - from)) > FAR,
        decreases s@.len() - i,
    {
        let c: char = s[i];
        assert(c == digits[i - from]);
        assert(is_digit(digits[i - from]));
        assert(digits.take(i - from + 1) =~= digits.take(i - from).push(c));
        proof {
            lemma_value_push(digits.take(i - from), c);
        }
        if !over {
            let next: u128 = value * 10 + (c as u128 - 48);
            if next > FAR {
                over = true;
            } else {
                value = next;
            }
        }
        i = i + 1;
    }
    assert(digits.take(i - from) =~= digits);
    if over {
        FAR
    } else {
        value
    }
}

/// Whether the characters `s[from..to]` are all digits.
fn digits_between(s: &Vec<char>, from: usize, to: usize) -> (r: bool)
    requires
        from <= to <= s@.len(),
    ensures
        r == all_digits(s@.subrange(from as int, to as int)),
{
    let ghost part = s@.subrange(from as int, to as int);
    let mut i: usize = from;
    while i < to
        invariant
            from <= i <= to <= s@.len(),
            part == s@.subrange(from as int, to as int),
            forall|k: int| 0 <= k < i - from ==> is_digit(#[trigger] part[k]),
        decreases to - i,
    {
        if s[i] < '0' || s[i] > '9' {
            assert(!is_digit(part[i - from]));
            return false;
        }
        i = i + 1;
    }
    true
}

/// The exponent behind position `at`, followed as far as `FAR`, and whether it is
/// negative.
fn read_exponent(s: &Vec<char>, at: usize) -> (r: Option<(u128, bool)>)
    requires
        at <= s@.len(),
    ensures
        match r {
            None => exponent_at(s@, at as int) is None,
            Some((size, downwards)) => {
                let exact = exponent_at(s@, at as int);
                &&& exact is Some
                &&& size <= FAR
                &&& downwards ==> exact->0 == -size || (size == FAR && exact->0 < -FAR)
                &&& !downwards ==> exact->0 == size || (size == FAR && exact->0 > FAR)
            },
        },
{
    let len: usize = s.len();
    if at >= len {
        return Some((0, false));
    }
    let ghost part = s@.skip(at + 1);
    let mut from: usize = at + 1;
    let mut downwards: bool = false;
    if from < len && (s[from] == '-' || s[from] == '+') {
        downwards = s[from] == '-';
        from = from + 1;
        assert(unsigned_part(part) =~= s@.skip(from as int));
    }
    assert(unsigned_part(part) == s@.skip(from as int));
    assert(s@.subrange(from as int, len as int) =~= s@.skip(from as int));
    if from >= len || !digits_between(s, from, len) {
        return None;
    }
    Some((exponent_value(s, from), downwards))
}

/// The characters `s[..at]` without the one at `point`.
fn without_point(s: &Vec<char>, point: usize, at: usize) -> (r: Vec<char>)
    requires
        point <= at <= s@.len(),
    ensures
        r@ == s@.subrange(0, point as int) + (if point < at {
            s@.subrange(point + 1, at as int)
        } else {
            seq![]
        }),
{
    let mut digits: Vec<char> = Vec::new();
    let mut i: usize = 0;
    while i < point
        invariant
            i <= point <= at <= s@.len(),
            digits@ == s@.subrange(0, i as int),
        decreases point - i,
    {
        digits.push(s[i]);
        i = i + 1;
        assert(digits@ =~= s@.subrange(0, i as int));
    }
    let ghost whole = s@.subrange(0, point as int);
    if point < at {
        i = point + 1;
        assert(digits@ =~= whole + s@.subrange(point + 1, i as int));
        while i < at
            invariant
                point < i <= at <= s@.len(),
                digits@ == whole + s@.subrange(point + 1, i as int),
            decreases at - i,
        {
            digits.push(s[i]);
            i = i + 1;
            assert(digits@ =~= whole + s@.subrange(point + 1, i as int));
        }
    }
    assert(digits@ =~= whole + (if point < at {
        s@.subrange(point + 1, at as int)
    } else {
        seq![]
    }));
    digits
}

/// The digits of a mantissa, in front of its point and behind it.
fn read_mantissa(s: &Vec<char>, at: usize) -> (r: Option<(Vec<char>, usize)>)
    requires
        at <= s@.len(),
    ensures
        ({
            let mantissa = s@.take(at as int);
            match r {
                None => !is_mantissa(mantissa),
                Some((digits, whole)) => {
                    &&& is_mantissa(mantissa)
                    &&& whole == whole_digits(mantissa).len()
                    &&& digits@ == whole_digits(mantissa) + fraction_digits(mantissa)
                    &&& all_digits(digits@)
                },
            }
        }),
{
    let ghost mantissa = s@.take(at as int);
    let mut point: usize = 0;
    while point < at && s[point] != '.'
        invariant
            point <= at <= s@.len(),
            mantissa == s@.take(at as int),
            point_start(mantissa, 0) == point_start(mantissa, point as int),
        decreases at - point,
    {
        point = point + 1;
    }
    assert(s@.subrange(0, point as int) =~= whole_digits(mantissa));
    let fraction: usize = if point < at {
        point + 1
    } else {
        at
    };
    assert(s@.subrange(fraction as int, at as int) =~= fraction_digits(mantissa));
    if !digits_between(s, 0, point) || !digits_between(s, fraction, at) || point + (at - fraction)
        == 0 {
        return None;
    }
    let digits: Vec<char> = without_point(s, point, at);
    let ghost all = whole_digits(mantissa) + fraction_digits(mantissa);
    assert(digits@ =~= all);
    assert(all_digits(all)) by {
        assert forall|k: int| 0 <= k < all.len() implies is_digit(#[trigger] all[k]) by {
            if k < point {
                assert(all[k] == whole_digits(mantissa)[k]);
            } else {
                assert(all[k] == fraction_digits(mantissa)[k - point]);
            }
        }
    }
    Some((digits, point))
}

/// The millionths that the characters write, which hold no sign.
fn parse_magnitude(s: &Vec<char>) -> (r: Option<u64>)
    ensures
        match r {
            Some(n) => magnitude(s@) == Some(n as nat),
            None => magnitude(s@) is None,
        },
{
    let len: usize = s.len();
    let mut at: usize = 0;
    while at < len && s[at] != 'e' && s[at] != 'E'
        invariant
            at <= len == s@.len(),
            exponent_start(s@, 0) == exponent_start(s@, at as int),
        decreases len - at,
    {
        at = at + 1;
    }
    let (exponent, downwards) = match read_exponent(s, at) {
        Some(found) => found,
        None => {
            return None;
        },
    };
    let (digits, point) = match read_mantissa(s, at) {
        Some(found) => found,
        None => {
            return None;
        },
    };
    let ghost exact = point + exponent_at(s@, at as int)->0 + 6;
    if downwards && exponent > point as u128 + 6 {
        assert(exact < 0);
        return Some(0);
    }
    let keep: u128 = if downwards {
        point as u128 + 6 - exponent
    } else {
        point as u128 + 6 + exponent
    };
    let value: u64 = digits_upto(&digits, keep);
    let count: usize = digits.len();
    proof {
        if keep != exact {
            lemma_far_digits(digits@, keep as int, exact);
        }
    }
    if keep < count as u128 && digits[keep as usize] >= '5' && value < MOST as u64 {
        Some(value + 1)
    } else {
        Some(value)
    }
}

/// The millionths that a number in decimals writes.
pub fn parse_micros(s: &str) -> (r: Option<i64>)
    ensures
        match r {
            Some(n) => micros_of(s@) == Some(n as int),
            None => micros_of(s@) is None,
        },
{
    let chars: Vec<char> = chars_of(s);
    let len: usize = chars.len();
    let signed: bool = len > 0 && (chars[0] == '+' || chars[0] == '-');
    let negative: bool = len > 0 && chars[0] == '-';
    let from: usize = if signed {
        1
    } else {
        0
    };
    let part: String = text_of(&chars, from, len);
    assert(part@ =~= unsigned_part(s@));
    let lower: String = to_ascii_lowercase(part.as_str());
    if text_eq(lower.as_str(), "nan") {
        return Some(NOT_A_NUMBER);
    }
    let size: i64 = if text_eq(lower.as_str(), "inf") || text_eq(lower.as_str(), "infinity") {
        INFINITE
    } else {
        let rest: Vec<char> = chars_of(part.as_str());
        match parse_magnitude(&rest) {
            Some(n) => n as i64,
            None => {
                return None;
            },
        }
    };
    if negative {
        Some(-size)
    } else {
        Some(size)
    }
}

/// Whether `x < y`.
pub fn is_below(x: i64, y: i64) -> (r: bool)
    ensures
        r == below(x as int, y as int),
{
    x != NOT_A_NUMBER && y != NOT_A_NUMBER && x < y
}

/// Whether `x <= y`.
pub fn is_upto(x: i64, y: i64) -> (r: bool)
    ensures
        r == upto(x as int, y as int),
{
    x != NOT_A_NUMBER && y != NOT_A_NUMBER && x <= y
}

/// Whether the value is a number that is not infinite.
pub fn is_bounded(x: i64) -> (r: bool)
    ensures
        r == is_finite(x as int),
{
    x >= -MOST && x <= MOST
}

/// The number, as far as it can be told from larger ones.
pub fn clamp(x: i128) -> (r: i64)
    ensures
        r == clamped(x as int),
{
    if x > MOST as i128 {
        MOST
    } else if x < -(MOST as i128) {
        -MOST
    } else {
        x as i64
    }
}

/// The sum of two values.
pub fn plus(x: i64, y: i64) -> (r: i64)
    ensures
        r == sum_of(x as int, y as int),
{
    if is_bounded(x) {
        if is_bounded(y) {
            clamp(x as i128 + y as i128)
        } else {
            y
        }
    } else if is_bounded(y) || x == y {
        x
    } else {
        NOT_A_NUMBER
    }
}

/// The word for a value that is infinite or not a number.
fn endless_text(us: i64) -> (r: String)
    ensures
        r@ == endless(us as int),
{
    if us == INFINITE {
        "inf".to_owned()
    } else if us == -INFINITE {
        "-inf".to_owned()
    } else {
        "NaN".to_owned()
    }
}

/// The last `width` decimal digits of `n`.
pub fn padded_text(n: u64, width: u32) -> (r: String)
    ensures
        r@ == padded(n as nat, width as nat),
    decreases width,
{
    if width == 0 {
        let r: String = String::new();
        assert(r@ =~= padded(n as nat, 0));
        r
    } else {
        let mut r: String = padded_text(n / 10, width - 1);
        r.push((48 + (n % 10) as u8) as char);
        r
    }
}

/// The sign and the whole part of a number of millionths.
fn whole_part(us: i64) -> (r: (String, u64))
    ensures
        r.0@ == (if us < 0 {
            seq!['-']
        } else {
            seq![]
        }) + decimal(size_of(us as int) / 1_000_000),
        r.1 == size_of(us as int) % 1_000_000,
{
    let size: u64 = if us < 0 {
        (-(us as i128)) as u64
    } else {
        us as u64
    };
    let mut text: String = String::new();
    if us < 0 {
        text.push('-');
    }
    let whole: String = decimal_text(size / 1_000_000);
    text.append(whole.as_str());
    assert(text@ =~= (if us < 0 {
        seq!['-']
    } else {
        seq![]
    }) + decimal(size_of(us as int) / 1_000_000));
    (text, size % 1_000_000)
}

/// A number of millionths with all six decimals.
pub fn six_decimals_text(us: i64) -> (r: String)
    ensures
        r@ == six_decimals(us as int),
{
    if !is_bounded(us) {
        return endless_text(us);
    }
    let (mut text, rest) = whole_part(us);
    text.push('.');
    let fraction: String = padded_text(rest, 6);
    text.append(fraction.as_str());
    assert(text@ =~= six_decimals(us as int));
    text
}

/// A number of millionths with the decimals that it has.
pub fn shortest_text(us: i64) -> (r: String)
    ensures
        r@ == shortest(us as int),
{
    if !is_bounded(us) {
        return endless_text(us);
    }
    let (mut text, rest) = whole_part(us);
    if rest != 0 {
        text.push('.');
        let fraction: String = padded_text(rest, 6);
        let mut chars: Vec<char> = chars_of(fraction.as_str());
        let ghost all = chars@;
        while chars.len() > 0 && chars[chars.len() - 1] == '0'
            invariant
                crate::text::strip_end(all, '0') == crate::text::strip_end(chars@, '0'),
            decreases chars@.len(),
        {
            let ghost before = chars@;
            chars.pop();
            assert(chars@ =~= before.drop_last());
        }
        let kept: String = text_of(&chars, 0, chars.len());
        assert(kept@ =~= chars@);
        text.append(kept.as_str());
    }
    assert(text@ =~= shortest(us as int));
    text
}

/// A number of thousandths with four decimals.
pub fn four_decimals_text(ms: u32) -> (r: String)
    ensures
        r@ == four_decimals(ms as nat),
{
    let mut text: String = decimal_text((ms / 1000) as u64);
    text.push('.');
    let fraction: String = padded_text((ms % 1000) as u64, 3);
    text.append(fraction.as_str());
    text.push('0');
    assert(text@ =~= four_decimals(ms as nat));
    text
}

// What is written ------------------------------------------------------------

proof fn lemma_padded(n: nat, width: nat)
    ensures
        padded(n, width).len() == width,
        all_digits(padded(n, width)),
    decreases width,
{
    if width > 0 {
        lemma_padded(n / 10, (width - 1) as nat);
    }
}

/// A time that is written with six decimals is no option of a program: it ends in
/// a digit or, where it has no end or is no time at all, in a letter.
pub proof fn six_decimals_end_in_digits(us: int)
    ensures
        six_decimals(us).len() > 2,
        is_finite(us) ==> is_digit(six_decimals(us).last()) && six_decimals(us)[six_decimals(
            us,
        ).len() - 7] == '.',
        !is_finite(us) ==> six_decimals(us).last() == 'f' || six_decimals(us).last() == 'N',
{
    let size = size_of(us);
    lemma_padded(size % 1_000_000, 6);
    crate::text::numbers_are_written_in_tens(size / 1_000_000);
    reveal_strlit("inf");
    reveal_strlit("-inf");
    reveal_strlit("NaN");
    if is_finite(us) {
        let digits = padded(size % 1_000_000, 6);
        assert(six_decimals(us).last() == digits[5]);
    }
}

proof fn lemma_value_of_both(a: Seq<char>, b: Seq<char>)
    ensures
        digits_value(a + b) == digits_value(a) * ten_to(b.len()) + digits_value(b),
    decreases b.len(),
{
    if b.len() == 0 {
        assert(a + b =~= a);
        assert(ten_to(b.len()) == 1);
        lemma_times_one(digits_value(a), ten_to(b.len()));
    } else {
        let rest = b.drop_last();
        assert((a + b).drop_last() =~= a + rest);
        lemma_value_of_both(a, rest);
        let x = digits_value(a) as int;
        let t = ten_to(rest.len()) as int;
        let y = digits_value(rest) as int;
        assert(ten_to(b.len()) == t * 10);
        assert((x * t + y) * 10 == x * (t * 10) + y * 10) by (nonlinear_arith);
    }
}

proof fn lemma_times_one(a: nat, one: nat)
    requires
        one == 1,
    ensures
        a * one == a,
{
    assert(a * one == a) by (nonlinear_arith)
        requires
            one == 1,
    ;
}

proof fn lemma_value_of_padded(n: nat, width: nat)
    requires
        n < ten_to(width),
    ensures
        digits_value(padded(n, width)) == n,
    decreases width,
{
    if width > 0 {
        let rest = (width - 1) as nat;
        assert(n / 10 < ten_to(rest)) by (nonlinear_arith)
            requires
                n < ten_to(rest) * 10,
        ;
        lemma_value_of_padded(n / 10, rest);
        assert(padded(n, width).drop_last() =~= padded(n / 10, rest));
    }
}

proof fn lemma_no_letter(s: Seq<char>, from: int)
    requires
        0 <= from <= s.len(),
        forall|i: int| from <= i < s.len() ==> is_digit(#[trigger] s[i]) || s[i] == '.',
    ensures
        exponent_start(s, from) == s.len(),
    decreases s.len() - from,
{
    if from < s.len() {
        lemma_no_letter(s, from + 1);
    }
}

proof fn lemma_point(s: Seq<char>, from: int, at: int)
    requires
        0 <= from <= at <= s.len(),
        at < s.len() ==> s[at] == '.',
        forall|i: int| from <= i < at ==> #[trigger] s[i] != '.',
    ensures
        point_start(s, from) == at,
    decreases at - from,
{
    if from < at {
        lemma_point(s, from + 1, at);
    }
}

/// What a number with digits on both sides of a point, or with none behind it,
/// is worth in millionths.
proof fn lemma_magnitude(whole: Seq<char>, fraction: Seq<char>, text: Seq<char>)
    requires
        whole.len() > 0,
        all_digits(whole),
        all_digits(fraction),
        fraction.len() <= 6,
        text == whole + seq!['.'] + fraction || (fraction.len() == 0 && text == whole),
        (digits_value(whole) + 1) * 1_000_000 <= MOST,
        digits_value(fraction) < ten_to(fraction.len()),
    ensures
        micros_of(text) == Some(
            (digits_value(whole) * 1_000_000 + digits_value(fraction) * ten_to(
                (6 - fraction.len()) as nat,
            )) as int,
        ),
        micros_of(seq!['-'] + text) == Some(
            -((digits_value(whole) * 1_000_000 + digits_value(fraction) * ten_to(
                (6 - fraction.len()) as nat,
            )) as int),
        ),
{
    let w = whole.len() as int;
    assert(is_digit(whole[0]) && text[0] == whole[0]);
    assert forall|i: int| 0 <= i < text.len() implies is_digit(#[trigger] text[i]) || text[i]
        == '.' by {
        if i < w {
            assert(text[i] == whole[i]);
        } else if i > w {
            assert(text[i] == fraction[i - w - 1]);
        }
    }
    lemma_no_letter(text, 0);
    assert forall|i: int| 0 <= i < w implies #[trigger] text[i] != '.' by {
        assert(text[i] == whole[i]);
        assert(is_digit(whole[i]));
    }
    lemma_point(text, 0, w);
    assert(text.take(text.len() as int) =~= text);
    assert(whole_digits(text) =~= whole);
    assert(fraction_digits(text) =~= fraction);
    let digits = whole + fraction;
    let n = w + 6;
    assert(ten_to(6) == 1_000_000) by {
        reveal_with_fuel(ten_to, 8);
    }
    let zeros = Seq::new((n - digits.len()) as nat, |i: int| '0');
    assert(first_digits(digits, n) =~= digits + zeros);
    lemma_value_of_both(whole, fraction);
    lemma_value_of_both(digits, zeros);
    lemma_zeros((n - digits.len()) as nat);
    let k = (6 - fraction.len()) as nat;
    lemma_ten_to_sum(fraction.len(), k);
    let a = digits_value(whole) as int;
    let f = digits_value(fraction) as int;
    let tf = ten_to(fraction.len()) as int;
    let tk = ten_to(k) as int;
    assert((a * tf + f) * tk == a * (tf * tk) + f * tk) by (nonlinear_arith);
    assert(f * tk < tf * tk) by (nonlinear_arith)
        requires
            0 <= f < tf,
            tk > 0,
    ;
    assert(magnitude(text) == Some((a * 1_000_000 + f * tk) as nat));
    assert(unsigned_part(text) == text);
    let negative = seq!['-'] + text;
    assert(negative.skip(1) =~= text);
    assert(unsigned_part(negative) == text);
    lemma_no_words(text);
}

proof fn lemma_zeros(k: nat)
    ensures
        digits_value(Seq::new(k, |i: int| '0')) == 0,
    decreases k,
{
    if k > 0 {
        let zeros = Seq::new(k, |i: int| '0');
        assert(zeros.drop_last() =~= Seq::new((k - 1) as nat, |i: int| '0'));
        lemma_zeros((k - 1) as nat);
    }
}

proof fn lemma_ten_to_sum(a: nat, b: nat)
    ensures
        ten_to(a + b) == ten_to(a) * ten_to(b),
        ten_to(b) > 0,
    decreases b,
{
    if b > 0 {
        lemma_ten_to_sum(a, (b - 1) as nat);
        let x = ten_to(a) as int;
        let y = ten_to((b - 1) as nat) as int;
        assert(ten_to(a + b) == ten_to((a + b - 1) as nat) * 10);
        assert(ten_to(b) == y * 10);
        assert((x * y) * 10 == x * (y * 10)) by (nonlinear_arith);
    } else {
        lemma_times_one(ten_to(a), ten_to(b));
    }
}

/// What starts with a digit is none of the words for what is no finite number.
proof fn lemma_no_words(text: Seq<char>)
    requires
        text.len() > 0,
        is_digit(text[0]),
    ensures
        !is_infinity(text),
        !is_no_number(text),
{
    reveal_strlit("inf");
    reveal_strlit("infinity");
    reveal_strlit("nan");
    assert(ascii_lower(text)[0] == text[0]);
    assert("inf"@[0] == 'i' && "infinity"@[0] == 'i' && "nan"@[0] == 'n');
}

proof fn lemma_parts(q: nat, r: nat)
    requires
        r < 1_000_000,
    ensures
        decimal(q).len() > 0,
        all_digits(decimal(q)),
        digits_value(decimal(q)) == q,
        padded(r, 6).len() == 6,
        all_digits(padded(r, 6)),
        digits_value(padded(r, 6)) == r,
        ten_to(6) == 1_000_000,
        ten_to(0) == 1,
{
    crate::text::numbers_are_written_in_tens(q);
    crate::text::a_written_number_reads_back(q, q);
    lemma_unsigned_is_value(decimal(q));
    lemma_padded(r, 6);
    reveal_with_fuel(ten_to, 8);
    lemma_value_of_padded(r, 6);
}

/// A time that is written with six decimals is read back as the same time, where
/// it is not beyond all bounds.
pub proof fn times_read_back(us: int)
    requires
        -(MOST - 1_000_000) <= us <= MOST - 1_000_000,
    ensures
        micros_of(six_decimals(us)) == Some(us),
{
    let size = size_of(us);
    let q = size / 1_000_000;
    let r = size % 1_000_000;
    let whole = decimal(q);
    let fraction = padded(r, 6);
    lemma_parts(q, r);
    let text = whole + seq!['.'] + fraction;
    lemma_magnitude(whole, fraction, text);
    lemma_times_one(r, ten_to(0));
    if us < 0 {
        assert(six_decimals(us) =~= seq!['-'] + text);
    } else {
        assert(six_decimals(us) =~= text);
    }
}

/// A level that is written as shortly as it can be is read back as the same
/// level, where it is not beyond all bounds.
pub proof fn levels_read_back(us: int)
    requires
        -(MOST - 1_000_000) <= us <= MOST - 1_000_000,
    ensures
        micros_of(shortest(us)) == Some(us),
{
    let size = size_of(us);
    let q = size / 1_000_000;
    let r = size % 1_000_000;
    let whole = decimal(q);
    let fraction = padded(r, 6);
    lemma_parts(q, r);
    if r == 0 {
        let none: Seq<char> = seq![];
        assert(digits_value(none) == 0);
        lemma_magnitude(whole, none, whole);
        assert(digits_value(none) * ten_to(6) == 0) by (nonlinear_arith)
            requires
                digits_value(none) == 0,
        ;
        if us < 0 {
            assert(shortest(us) =~= seq!['-'] + whole);
        } else {
            assert(shortest(us) =~= whole);
        }
    } else {
        let short = crate::text::strip_end(fraction, '0');
        lemma_strip_zeros(fraction);
        let k = (6 - short.len()) as nat;
        let brief = whole + seq!['.'] + short;
        lemma_ten_to_sum(short.len(), k);
        let v = digits_value(short) as int;
        let ts = ten_to(short.len()) as int;
        let tk = ten_to(k) as int;
        assert(v < ts) by (nonlinear_arith)
            requires
                v * tk < 1_000_000,
                ts * tk == 1_000_000,
                tk > 0,
        ;
        lemma_magnitude(whole, short, brief);
        if us < 0 {
            assert(shortest(us) =~= seq!['-'] + brief);
        } else {
            assert(shortest(us) =~= brief);
        }
    }
}

/// A length of silence in milliseconds is read back as that many thousandths.
pub proof fn lengths_read_back(ms: nat)
    requires
        ms <= u32::MAX,
    ensures
        micros_of(four_decimals(ms)) == Some((ms * 1000) as int),
{
    let q = ms / 1000;
    let r = ms % 1000;
    let seconds = decimal(q);
    let fraction = padded(r, 3) + seq!['0'];
    lemma_parts(q, 0);
    lemma_padded(r, 3);
    assert(ten_to(3) == 1000 && ten_to(1) == 10 && ten_to(4) == 10_000 && ten_to(2) == 100) by {
        reveal_with_fuel(ten_to, 6);
    }
    lemma_value_of_padded(r, 3);
    lemma_value_of_both(padded(r, 3), seq!['0']);
    assert(seq!['0'].drop_last() =~= seq![]);
    assert(digits_value(seq![]) == 0);
    assert(digits_value(seq!['0']) == 0);
    assert(digits_value(fraction) == r * 10);
    assert(all_digits(fraction)) by {
        assert forall|i: int| 0 <= i < fraction.len() implies is_digit(#[trigger] fraction[i]) by {
            if i < 3 {
                assert(fraction[i] == padded(r, 3)[i]);
            }
        }
    }
    assert(four_decimals(ms) =~= seconds + seq!['.'] + fraction);
    lemma_magnitude(seconds, fraction, four_decimals(ms));
    assert(digits_value(fraction) * ten_to(2) == r * 10 * 100) by (nonlinear_arith)
        requires
            digits_value(fraction) == r * 10,
            ten_to(2) == 100,
    ;
}

proof fn lemma_unsigned_is_value(digits: Seq<char>)
    requires
        digits.len() > 0,
        all_digits(digits),
    ensures
        crate::text::unsigned(digits) == Some(digits_value(digits)),
{
    assert(is_digit(digits[0]));
}

proof fn lemma_strip_zeros(s: Seq<char>)
    requires
        all_digits(s),
    ensures
        ({
            let short = crate::text::strip_end(s, '0');
            &&& short.len() <= s.len()
            &&& all_digits(short)
            &&& digits_value(s) == digits_value(short) * ten_to((s.len() - short.len()) as nat)
        }),
    decreases s.len(),
{
    let short = crate::text::strip_end(s, '0');
    if s.len() > 0 && s.last() == '0' {
        let rest = s.drop_last();
        lemma_strip_zeros(rest);
        let k = (rest.len() - short.len()) as nat;
        let v = digits_value(short) as int;
        let t = ten_to(k) as int;
        assert(ten_to(k + 1) == t * 10);
        assert((v * t) * 10 == v * (t * 10)) by (nonlinear_arith);
        assert(short.len() <= rest.len());
        assert((s.len() - short.len()) as nat == k + 1);
    } else {
        assert(ten_to(0) == 1);
        lemma_times_one(digits_value(s), ten_to(0));
    }
}

/// What is no number is told from what is one: infinite times and those that are
/// none are read as such, in any case of the letters, and a sign turns them round.
pub proof fn words_for_times_are_read()
    ensures
        micros_of("inf"@) == Some(INFINITE as int),
        micros_of("-inf"@) == Some(-(INFINITE as int)),
        micros_of("NaN"@) == Some(NOT_A_NUMBER as int),
        micros_of(seq![]) is None,
        forall|us: int| !is_finite(us) && -INFINITE <= us <= INFINITE ==> micros_of(
            #[trigger] six_decimals(us),
        ) == Some(us),
        micros_of(six_decimals(NOT_A_NUMBER as int)) == Some(NOT_A_NUMBER as int),
{
    reveal_strlit("inf");
    reveal_strlit("-inf");
    reveal_strlit("infinity");
    reveal_strlit("NaN");
    reveal_strlit("nan");
    assert("inf"@[0] == 'i' && "NaN"@[0] == 'N' && "-inf"@[0] == '-');
    assert("-inf"@.skip(1) =~= "inf"@);
    assert(ascii_lower("inf"@) =~= "inf"@);
    assert(ascii_lower("NaN"@) =~= "nan"@);
    assert("inf"@.len() == 3 && "nan"@.len() == 3 && "infinity"@.len() == 8);
    assert("nan"@[0] == 'n');
    let none: Seq<char> = seq![];
    assert(ascii_lower(none) =~= none);
    assert(none.take(0) =~= none);
    assert(whole_digits(none) =~= none);
    assert(fraction_digits(none) =~= none);
}

/// Times that are not beyond all bounds are added and compared as numbers are; what
/// is no time is neither before nor behind anything, and one that has no end stays
/// so whatever is added.
pub proof fn times_are_added_as_numbers_are(x: int, y: int)
    requires
        -4_000_000_000_000_000_000 <= x <= 4_000_000_000_000_000_000,
        -4_000_000_000_000_000_000 <= y <= 4_000_000_000_000_000_000,
    ensures
        sum_of(x, y) == x + y,
        below(x, y) <==> x < y,
        upto(x, y) <==> x <= y,
        opposite(x) == -x,
        at_least_zero(x) == (if x < 0 {
            0
        } else {
            x
        }),
        sum_of(INFINITE as int, y) == INFINITE,
        sum_of(x, INFINITE as int) == INFINITE,
        !below(NOT_A_NUMBER as int, y) && !below(x, NOT_A_NUMBER as int),
        !upto(NOT_A_NUMBER as int, y) && !upto(x, NOT_A_NUMBER as int),
        is_finite(x) && !is_finite(INFINITE as int) && !is_finite(NOT_A_NUMBER as int),
{
}

} // verus!
