//! Characters and decimal numbers, as the chart's small grammars need them.

use vstd::prelude::*;
use vstd::string::*;

verus! {

pub open spec fn is_digit(c: char) -> bool {
    '0' <= c <= '9'
}

pub open spec fn digit_value(c: char) -> int {
    c as int - '0' as int
}

pub open spec fn all_digits(s: Seq<char>) -> bool {
    forall|i: int| 0 <= i < s.len() ==> is_digit(#[trigger] s[i])
}

/// The number that a run of decimal digits writes; 0 for the empty run.
pub open spec fn decimal_value(s: Seq<char>) -> int
    decreases s.len(),
{
    if s.len() == 0 {
        0
    } else {
        decimal_value(s.drop_last()) * 10 + digit_value(s.last())
    }
}

/// A run of digits is worth at least as much as any of its beginnings.
pub proof fn lemma_decimal_value_grows(s: Seq<char>, k: int)
    requires
        all_digits(s),
        0 <= k <= s.len(),
    ensures
        0 <= decimal_value(s.subrange(0, k)) <= decimal_value(s),
    decreases s.len() - k,
{
    if k == s.len() {
        assert(s.subrange(0, k) == s);
        lemma_decimal_value_nonnegative(s);
    } else {
        lemma_decimal_value_grows(s, k + 1);
        let longer = s.subrange(0, k + 1);
        assert(longer.drop_last() == s.subrange(0, k));
        assert(longer.last() == s[k]);
        lemma_decimal_value_nonnegative(s.subrange(0, k));
    }
}

pub proof fn lemma_decimal_value_nonnegative(s: Seq<char>)
    requires
        all_digits(s),
    ensures
        0 <= decimal_value(s),
    decreases s.len(),
{
    if s.len() > 0 {
        lemma_decimal_value_nonnegative(s.drop_last());
    }
}

/// The number written by the characters `from .. to` of `s`, where they are
/// one or more decimal digits and the number fits in a `u32`.
pub open spec fn decimal_in(s: Seq<char>, from: int, to: int) -> Option<u32> {
    let run = s.subrange(from, to);
    if from < to && all_digits(run) && decimal_value(run) <= u32::MAX {
        Some(decimal_value(run) as u32)
    } else {
        None
    }
}

pub fn char_is_digit(c: char) -> (r: bool)
    ensures
        r == is_digit(c),
{
    '0' <= c && c <= '9'
}

/// Whether the characters `from .. to` of `s` are all decimal digits.
pub fn digits_only(s: &str, from: usize, to: usize) -> (r: bool)
    requires
        from <= to <= s@.len(),
    ensures
        r == all_digits(s@.subrange(from as int, to as int)),
{
    let mut i: usize = from;
    while i < to
        invariant
            from <= i <= to <= s@.len(),
            forall|j: int| from <= j < i ==> is_digit(#[trigger] s@[j]),
        decreases to - i,
    {
        let c = s.get_char(i);
        if !('0' <= c && c <= '9') {
            assert(!is_digit(s@.subrange(from as int, to as int)[i - from]));
            return false;
        }
        i = i + 1;
    }
    true
}

pub fn parse_decimal(s: &str, from: usize, to: usize) -> (r: Option<u32>)
    requires
        from <= to <= s@.len(),
    ensures
        r == decimal_in(s@, from as int, to as int),
        r matches Some(v) ==> v == decimal_value(s@.subrange(from as int, to as int)),
{
    if from >= to {
        return None;
    }
    let ghost run = s@.subrange(from as int, to as int);
    let mut acc: u32 = 0;
    let mut i: usize = from;
    while i < to
        invariant
            from <= i <= to <= s@.len(),
            run == s@.subrange(from as int, to as int),
            all_digits(run.subrange(0, i - from)),
            acc == decimal_value(run.subrange(0, i - from)),
        decreases to - i,
    {
        let c = s.get_char(i);
        if !char_is_digit(c) {
            assert(!is_digit(run[i - from]));
            return None;
        }
        let d: u32 = (c as u32) - ('0' as u32);
        proof {
            let next = run.subrange(0, i - from + 1);
            assert(next.drop_last() == run.subrange(0, i - from));
            assert(next.last() == c);
            assert forall|j: int| 0 <= j < next.len() implies is_digit(#[trigger] next[j]) by {
                if j < i - from {
                    assert(is_digit(run.subrange(0, i - from)[j]));
                }
            }
            if acc > 429496729 || (acc == 429496729 && d > 5) {
                if all_digits(run) {
                    lemma_decimal_value_grows(run, i - from + 1);
                }
            }
        }
        if acc > 429496729 || (acc == 429496729 && d > 5) {
            return None;
        }
        acc = acc * 10 + d;
        i = i + 1;
    }
    assert(run.subrange(0, to - from) == run);
    Some(acc)
}

/// The number that a text writes in decimal digits, with or without a `+`
/// before them, where it fits in a `u32`.
pub open spec fn unsigned_in(s: Seq<char>) -> Option<u32> {
    if s.len() > 0 && s[0] == '+' {
        decimal_in(s, 1, s.len() as int)
    } else {
        decimal_in(s, 0, s.len() as int)
    }
}

pub fn parse_unsigned(s: &str) -> (r: Option<u32>)
    ensures
        r == unsigned_in(s@),
{
    let n = s.unicode_len();
    if n > 0 && s.get_char(0) == '+' {
        parse_decimal(s, 1, n)
    } else {
        parse_decimal(s, 0, n)
    }
}

/// Why a text is no number of days.
#[derive(Debug, Clone, Copy, PartialEq, Eq, Structural)]
pub enum NumberError {
    /// The text is not a number written in the digits that are asked for.
    Syntax,
    /// The days make more quarters than a `u32` holds.
    TooLarge,
}

/// The whole days and the hundredths of a day that a text writes: digits,
/// and after them, if anything, a point and one or two digits.
pub open spec fn days_fields(s: Seq<char>) -> Option<(int, int)> {
    let k = first_index_of(s, '.');
    let whole = s.subrange(0, k);
    let fraction = s.subrange(k + 1, s.len() as int);
    if k >= 1 && all_digits(whole) && k == s.len() {
        Some((decimal_value(whole), 0int))
    } else if k >= 1 && all_digits(whole) && k < s.len() && 1 <= fraction.len() <= 2 && all_digits(
        fraction,
    ) {
        Some(
            (
                decimal_value(whole),
                if fraction.len() == 1 {
                    10 * decimal_value(fraction)
                } else {
                    decimal_value(fraction)
                },
            ),
        )
    } else {
        None
    }
}

/// Days in quarters, rounded to the nearest quarter.
pub open spec fn quarters_of(whole: int, hundredths: int) -> int {
    4 * whole + (4 * hundredths + 50) / 100
}

/// The quarters that a text of days stands for.
pub open spec fn parsed_days(s: Seq<char>) -> Result<u32, NumberError> {
    match days_fields(s) {
        None => Err(NumberError::Syntax),
        Some((whole, hundredths)) => if quarters_of(whole, hundredths) > u32::MAX {
            Err(NumberError::TooLarge)
        } else {
            Ok(quarters_of(whole, hundredths) as u32)
        },
    }
}

/// One or two digits write a number below 100.
pub proof fn lemma_short_decimal(s: Seq<char>)
    requires
        all_digits(s),
        s.len() <= 2,
    ensures
        0 <= decimal_value(s) <= 99,
        s.len() <= 1 ==> decimal_value(s) <= 9,
{
    if s.len() == 2 {
        let head = s.drop_last();
        assert(is_digit(head[0]));
        assert(is_digit(s[1]));
        assert(head.drop_last().len() == 0);
        assert(decimal_value(head.drop_last()) == 0);
        assert(decimal_value(head) == decimal_value(head.drop_last()) * 10 + digit_value(
            head.last(),
        ));
    } else if s.len() == 1 {
        assert(is_digit(s[0]));
        assert(decimal_value(s.drop_last()) == 0);
    }
}

/// Reads a number of days: see `parsed_days`.
pub fn parse_days(s: &str) -> (r: Result<u32, NumberError>)
    ensures
        r == parsed_days(s@),
{
    let n = s.unicode_len();
    let k = find_char(s, '.');
    if k < 1 || !digits_only(s, 0, k) {
        return Err(NumberError::Syntax);
    }
    let mut hundredths: u32 = 0;
    if k < n {
        let digits = n - (k + 1);
        if digits < 1 || digits > 2 || !digits_only(s, k + 1, n) {
            return Err(NumberError::Syntax);
        }
        proof {
            lemma_short_decimal(s@.subrange(k + 1, n as int));
        }
        let fraction = match parse_decimal(s, k + 1, n) {
            Some(v) => v,
            None => { return Err(NumberError::Syntax); },
        };
        hundredths = if digits == 1 {
            10 * fraction
        } else {
            fraction
        };
    }
    proof {
        lemma_decimal_value_nonnegative(s@.subrange(0, k as int));
    }
    let whole = match parse_decimal(s, 0, k) {
        Some(v) => v,
        None => { return Err(NumberError::TooLarge); },
    };
    let quarters: u64 = 4 * (whole as u64) + (4 * (hundredths as u64) + 50) / 100;
    if quarters > u32::MAX as u64 {
        Err(NumberError::TooLarge)
    } else {
        Ok(quarters as u32)
    }
}

/// Ten to the power `k`.
pub open spec fn pow10(k: nat) -> int
    decreases k,
{
    if k == 0 {
        1
    } else {
        10 * pow10((k - 1) as nat)
    }
}

/// The parts of a decimal number of either sign: whether a `-` stands before
/// it, the digits before the point, and the digits after it. The sign, the
/// point and either run of digits may be missing, but not both runs.
pub open spec fn decimal_fields(s: Seq<char>) -> Option<(bool, Seq<char>, Seq<char>)> {
    let signed = s.len() > 0 && (s[0] == '-' || s[0] == '+');
    let body = if signed {
        s.subrange(1, s.len() as int)
    } else {
        s
    };
    let k = first_index_of(body, '.');
    let whole = body.subrange(0, k);
    let fraction = if k < body.len() {
        body.subrange(k + 1, body.len() as int)
    } else {
        Seq::empty()
    };
    if all_digits(whole) && all_digits(fraction) && whole.len() + fraction.len() > 0 {
        Some((signed && s[0] == '-', whole, fraction))
    } else {
        None
    }
}

/// The days that the digits before and after the point write, in quarters,
/// rounded to the nearest quarter; half a quarter goes up. With `f` for the
/// number that the digits after the point write and `p` for ten to the
/// power of their count, the days are `whole + f / p`, and four times that
/// plus a half, rounded down, is what this gives.
pub open spec fn rounded_quarters(whole: Seq<char>, fraction: Seq<char>) -> int {
    4 * decimal_value(whole) + (8 * decimal_value(fraction) + pow10(fraction.len())) / (2 * pow10(
        fraction.len(),
    ))
}

/// The digit at index `i` of a run of digits, 0 beyond its end.
pub open spec fn digit_at(s: Seq<char>, i: int) -> int {
    if 0 <= i < s.len() {
        digit_value(s[i])
    } else {
        0
    }
}

/// The first three digits after the point, as thousandths.
pub open spec fn thousandths(fraction: Seq<char>) -> int {
    100 * digit_at(fraction, 0) + 10 * digit_at(fraction, 1) + digit_at(fraction, 2)
}

pub proof fn lemma_pow10_positive(k: nat)
    ensures
        pow10(k) >= 1,
    decreases k,
{
    if k > 0 {
        lemma_pow10_positive((k - 1) as nat);
    }
}

/// A run of `k` digits writes a number below ten to the power `k`.
pub proof fn lemma_decimal_value_below(s: Seq<char>)
    requires
        all_digits(s),
    ensures
        0 <= decimal_value(s) < pow10(s.len()),
    decreases s.len(),
{
    if s.len() > 0 {
        assert(is_digit(s[s.len() - 1]));
        lemma_decimal_value_below(s.drop_last());
    }
}

/// What two runs of digits write when the one follows the other.
pub proof fn lemma_decimal_value_concat(a: Seq<char>, b: Seq<char>)
    ensures
        decimal_value(a + b) == decimal_value(a) * pow10(b.len()) + decimal_value(b),
    decreases b.len(),
{
    if b.len() == 0 {
        assert(a + b =~= a);
    } else {
        let shorter = b.drop_last();
        assert((a + b).drop_last() =~= a + shorter);
        assert((a + b).last() == b.last());
        lemma_decimal_value_concat(a, shorter);
        let va = decimal_value(a);
        let p = pow10(shorter.len());
        assert(pow10(b.len()) == 10 * p);
        assert((va * p) * 10 == va * (10 * p)) by (nonlinear_arith);
    }
}

/// Only the first three digits after the point decide to which quarter a
/// number is rounded: the quarters turn at .125, .375, .625 and .875.
pub proof fn lemma_fraction_rounds(fraction: Seq<char>)
    requires
        all_digits(fraction),
    ensures
        (8 * decimal_value(fraction) + pow10(fraction.len())) / (2 * pow10(fraction.len())) == (8
            * thousandths(fraction) + 1000) / 2000,
        0 <= thousandths(fraction) <= 999,
{
    let k = fraction.len();
    reveal_with_fuel(decimal_value, 4);
    reveal_with_fuel(pow10, 4);
    if k >= 1 {
        assert(is_digit(fraction[0]));
    }
    if k >= 2 {
        assert(is_digit(fraction[1]));
    }
    if k >= 3 {
        assert(is_digit(fraction[2]));
    }
    let x = 8 * decimal_value(fraction) + pow10(k);
    let d = 2 * pow10(k);
    let t = thousandths(fraction);
    let q = (8 * t + 1000) / 2000;
    let r = (8 * t + 1000) % 2000;
    if k == 0 {
        assert(decimal_value(fraction) == 0);
        assert(x == 1 && d == 2 && t == 0);
    } else if k == 1 {
        assert(fraction.drop_last().len() == 0);
        assert(decimal_value(fraction) == digit_at(fraction, 0));
        assert(t == 100 * decimal_value(fraction));
        assert(100 * x == 2000 * q + r);
        assert(100 * (x - 20 * q) == r);
        vstd::arithmetic::div_mod::lemma_fundamental_div_mod_converse(x, d, q, x - 20 * q);
    } else if k == 2 {
        assert(fraction.drop_last().last() == fraction[0]);
        assert(fraction.drop_last().drop_last().len() == 0);
        assert(decimal_value(fraction) == 10 * digit_at(fraction, 0) + digit_at(fraction, 1));
        assert(t == 10 * decimal_value(fraction));
        assert(10 * x == 2000 * q + r);
        assert(10 * (x - 200 * q) == r);
        vstd::arithmetic::div_mod::lemma_fundamental_div_mod_converse(x, d, q, x - 200 * q);
    } else {
        let head = fraction.subrange(0, 3);
        let tail = fraction.subrange(3, k as int);
        assert(fraction =~= head + tail);
        lemma_decimal_value_concat(head, tail);
        assert(head.last() == fraction[2]);
        assert(head.drop_last().last() == fraction[1]);
        assert(head.drop_last().drop_last().last() == fraction[0]);
        assert(head.drop_last().drop_last().drop_last().len() == 0);
        assert(decimal_value(head) == thousandths(fraction));
        assert forall|i: int| 0 <= i < tail.len() implies is_digit(#[trigger] tail[i]) by {
            assert(is_digit(fraction[i + 3]));
        }
        lemma_decimal_value_below(tail);
        let m = pow10(tail.len());
        lemma_pow10_positive(tail.len());
        assert(pow10(k) == 1000 * m);
        let rest = decimal_value(tail);
        assert(r <= 1992) by {
            assert((8 * t + 1000) % 8 == 0);
        }
        assert(x == q * d + (r * m + 8 * rest)) by (nonlinear_arith)
            requires
                x == 8 * (t * m + rest) + 1000 * m,
                d == 2000 * m,
                8 * t + 1000 == 2000 * q + r,
        ;
        assert(0 <= r * m + 8 * rest < d) by (nonlinear_arith)
            requires
                0 <= r <= 1992,
                0 <= rest < m,
                d == 2000 * m,
        ;
        vstd::arithmetic::div_mod::lemma_fundamental_div_mod_converse(
            x,
            d,
            q,
            r * m + 8 * rest,
        );
    }
}

/// To which quarter the digits `from .. to` of `s`, taken as the digits
/// after a point, round: 0 to 4 quarters.
pub fn round_fraction(s: &str, from: usize, to: usize) -> (r: u32)
    requires
        from <= to <= s@.len(),
        all_digits(s@.subrange(from as int, to as int)),
    ensures
        r == (8 * decimal_value(s@.subrange(from as int, to as int)) + pow10(
            (to - from) as nat,
        )) / (2 * pow10((to - from) as nat)),
        r <= 4,
{
    let ghost fraction = s@.subrange(from as int, to as int);
    let mut t: u32 = 0;
    let mut i: usize = 0;
    while i < 3
        invariant
            i <= 3,
            from <= to <= s@.len(),
            fraction == s@.subrange(from as int, to as int),
            all_digits(fraction),
            i == 0 ==> t == 0,
            i == 1 ==> t == digit_at(fraction, 0),
            i == 2 ==> t == 10 * digit_at(fraction, 0) + digit_at(fraction, 1),
            i == 3 ==> t == thousandths(fraction),
        decreases 3 - i,
    {
        let d: u32 = if to - from > i {
            let c = s.get_char(from + i);
            assert(is_digit(fraction[i as int]));
            (c as u32) - ('0' as u32)
        } else {
            0
        };
        t = t * 10 + d;
        i = i + 1;
    }
    proof {
        lemma_fraction_rounds(fraction);
    }
    (8 * t + 1000) / 2000
}

/// The index of the first `, ` in `s` at or after `from`, or the length of
/// `s` where there is none.
pub open spec fn separator_from(s: Seq<char>, from: int) -> int
    decreases s.len() - from,
{
    if from < 0 || from + 1 >= s.len() {
        s.len() as int
    } else if s[from] == ',' && s[from + 1] == ' ' {
        from
    } else {
        separator_from(s, from + 1)
    }
}

pub proof fn lemma_separator_from(s: Seq<char>, from: int)
    requires
        0 <= from <= s.len(),
    ensures
        from <= separator_from(s, from) <= s.len(),
        separator_from(s, from) < s.len() ==> separator_from(s, from) + 1 < s.len(),
    decreases s.len() - from,
{
    if from + 1 < s.len() && !(s[from] == ',' && s[from + 1] == ' ') {
        lemma_separator_from(s, from + 1);
    }
}

/// The parts of a list whose items are separated by `, `, from index `from` on.
pub open spec fn parts_from(s: Seq<char>, from: int) -> Seq<Seq<char>>
    decreases s.len() - from,
{
    let k = separator_from(s, from);
    if from < 0 || from > s.len() {
        Seq::empty()
    } else if from <= k && k + 2 <= s.len() {
        seq![s.subrange(from, k)] + parts_from(s, k + 2)
    } else {
        seq![s.subrange(from, s.len() as int)]
    }
}

/// The parts of a list whose items are separated by `, `. A list always has
/// a part, which may be empty.
pub open spec fn list_parts(s: Seq<char>) -> Seq<Seq<char>> {
    parts_from(s, 0)
}

/// Splits a list at each `, `.
pub fn split_list(s: &str) -> (r: Vec<String>)
    ensures
        r@.len() == list_parts(s@).len(),
        forall|i: int| 0 <= i < r@.len() ==> r@[i]@ == list_parts(s@)[i],
        r@.len() >= 1,
{
    let n = s.unicode_len();
    let mut parts: Vec<String> = Vec::new();
    let mut from: usize = 0;
    let mut i: usize = 0;
    let ghost mut done: Seq<Seq<char>> = Seq::empty();
    loop
        invariant
            n == s@.len(),
            from <= i <= n,
            parts@.len() == done.len(),
            forall|j: int| 0 <= j < parts@.len() ==> parts@[j]@ == done[j],
            list_parts(s@) == done + parts_from(s@, from as int),
            separator_from(s@, from as int) == separator_from(s@, i as int),
        decreases n - i,
    {
        if n - i < 2 {
            proof {
                lemma_separator_from(s@, from as int);
                assert(done + seq![s@.subrange(from as int, n as int)] =~= done.push(
                    s@.subrange(from as int, n as int),
                ));
            }
            parts.push(String::from_str(s.substring_char(from, n)));
            return parts;
        }
        if s.get_char(i) == ',' && s.get_char(i + 1) == ' ' {
            proof {
                assert(separator_from(s@, from as int) == i);
                assert(done + (seq![s@.subrange(from as int, i as int)] + parts_from(
                    s@,
                    i + 2,
                )) =~= done.push(s@.subrange(from as int, i as int)) + parts_from(s@, i + 2));
                done = done.push(s@.subrange(from as int, i as int));
            }
            parts.push(String::from_str(s.substring_char(from, i)));
            from = i + 2;
            i = i + 2;
        } else {
            i = i + 1;
        }
    }
}

pub open spec fn digit_char(d: int) -> char {
    (d + '0' as int) as char
}

/// The decimal digits of a number, without leading zeros.
pub open spec fn decimal_text(n: nat) -> Seq<char>
    decreases n,
{
    if n < 10 {
        seq![digit_char(n as int)]
    } else {
        decimal_text(n / 10).push(digit_char((n % 10) as int))
    }
}

fn digit_str(d: u32) -> (r: &'static str)
    requires
        d < 10,
    ensures
        r@ == seq![digit_char(d as int)],
{
    proof {
        reveal_strlit("0");
        reveal_strlit("1");
        reveal_strlit("2");
        reveal_strlit("3");
        reveal_strlit("4");
        reveal_strlit("5");
        reveal_strlit("6");
        reveal_strlit("7");
        reveal_strlit("8");
        reveal_strlit("9");
    }
    let r = if d == 0 {
        "0"
    } else if d == 1 {
        "1"
    } else if d == 2 {
        "2"
    } else if d == 3 {
        "3"
    } else if d == 4 {
        "4"
    } else if d == 5 {
        "5"
    } else if d == 6 {
        "6"
    } else if d == 7 {
        "7"
    } else if d == 8 {
        "8"
    } else {
        "9"
    };
    assert(r@ =~= seq![digit_char(d as int)]);
    r
}

pub fn decimal_string(n: u32) -> (r: String)
    ensures
        r@ == decimal_text(n as nat),
    decreases n,
{
    if n < 10 {
        String::from_str(digit_str(n))
    } else {
        let mut s = decimal_string(n / 10);
        s.append(digit_str(n % 10));
        assert(s@ =~= decimal_text((n / 10) as nat).push(digit_char((n % 10) as int)));
        s
    }
}

/// The index of the first `c` in `s`, or the length of `s` where it has none.
pub open spec fn first_index_of(s: Seq<char>, c: char) -> int
    decreases s.len(),
{
    if s.len() == 0 {
        0
    } else {
        let k = first_index_of(s.drop_last(), c);
        if k < s.len() - 1 || s.last() == c {
            k
        } else {
            s.len() as int
        }
    }
}

/// The first index is the one before which no `c` stands and at which one does.
pub proof fn lemma_first_index_of(s: Seq<char>, c: char, k: int)
    requires
        0 <= k <= s.len(),
        forall|j: int| 0 <= j < k ==> s[j] != c,
        k < s.len() ==> s[k] == c,
    ensures
        first_index_of(s, c) == k,
    decreases s.len(),
{
    if s.len() > 0 {
        let shorter = s.drop_last();
        if k < s.len() - 1 {
            lemma_first_index_of(shorter, c, k);
        } else {
            lemma_first_index_of(shorter, c, s.len() - 1);
        }
    }
}

pub fn find_char(s: &str, c: char) -> (k: usize)
    ensures
        k == first_index_of(s@, c),
        k <= s@.len(),
        k < s@.len() ==> s@[k as int] == c,
        forall|j: int| 0 <= j < k ==> s@[j] != c,
{
    let n = s.unicode_len();
    let mut i: usize = 0;
    while i < n
        invariant
            i <= n,
            n == s@.len(),
            forall|j: int| 0 <= j < i ==> s@[j] != c,
        decreases n - i,
    {
        if s.get_char(i) == c {
            proof {
                lemma_first_index_of(s@, c, i as int);
            }
            return i;
        }
        i = i + 1;
    }
    proof {
        lemma_first_index_of(s@, c, n as int);
    }
    n
}

/// Whether two strings hold the same characters.
pub fn same_text(a: &str, b: &str) -> (r: bool)
    ensures
        r == (a@ == b@),
{
    let n = a.unicode_len();
    if n != b.unicode_len() {
        return false;
    }
    let mut i: usize = 0;
    while i < n
        invariant
            i <= n,
            n == a@.len(),
            n == b@.len(),
            forall|j: int| 0 <= j < i ==> a@[j] == b@[j],
        decreases n - i,
    {
        if a.get_char(i) != b.get_char(i) {
            return false;
        }
        i = i + 1;
    }
    assert(a@ =~= b@);
    true
}

} // verus!
