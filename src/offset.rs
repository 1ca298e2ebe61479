use vstd::prelude::*;

use crate::chars::{
    char_is_alphabetic, char_is_digit, chars_of, is_digit, is_letter, partition_predicate,
};
use crate::error::{reports, Error, Fault};
use crate::units::{unit_usecs, usec_multiplier};

verus! {

/// The value of a run of decimal digits.
pub open spec fn decimal(s: Seq<char>) -> int
    decreases s.len(),
{
    if s.len() == 0 {
        0
    } else {
        decimal(s.drop_last()) * 10 + (s.last() as int - '0' as int)
    }
}

pub open spec fn all_digits(s: Seq<char>) -> bool {
    forall|i: int| 0 <= i < s.len() ==> is_digit(#[trigger] s[i])
}

pub open spec fn in_i64(v: int) -> bool {
    i64::MIN <= v <= i64::MAX
}

/// The number that a run of decimal digits `s` stands for, as an `i64`: none
/// when `s` is empty, holds anything but ASCII digits (a sign included), or
/// has a value that does not fit.
pub open spec fn digits_value(s: Seq<char>) -> Option<int> {
    if s.len() == 0 || !all_digits(s) || decimal(s) > i64::MAX {
        None
    } else {
        Some(decimal(s))
    }
}

/// The number of leading ASCII digits of `s`.
pub open spec fn leading_digits(s: Seq<char>) -> nat
    decreases s.len(),
{
    if s.len() == 0 || !is_digit(s[0]) {
        0
    } else {
        1 + leading_digits(s.drop_first())
    }
}

/// The number of leading alphabetic characters of `s`.
pub open spec fn leading_letters(s: Seq<char>) -> nat
    decreases s.len(),
{
    if s.len() == 0 || !is_letter(s[0]) {
        0
    } else {
        1 + leading_letters(s.drop_first())
    }
}

/// The total of the time spans in `s`, a text without whitespace made of
/// `<digits><letters>` components, added to `total`; or why it has none.
/// Each component's letters are looked up as a unit first, an unknown unit
/// taking priority; then its digits are read as an `i64`, and each product
/// and each running total must fit in an `i64`.
pub open spec fn offset_total(s: Seq<char>, total: int) -> Result<int, Fault>
    decreases s.len(),
    via offset_total_decreases
{
    if s.len() == 0 {
        Ok(total)
    } else {
        let d = leading_digits(s);
        let after = s.skip(d as int);
        let l = leading_letters(after);
        let unit = after.take(l as int);
        match unit_usecs(unit) {
            None => Err(Fault::TimeUnit(unit)),
            Some(m) => if d == 0 {
                Err(Fault::Number)
            } else {
                match digits_value(s.take(d as int)) {
                    None => Err(Fault::Number),
                    Some(n) => if in_i64(n * m) && in_i64(n * m + total) {
                        offset_total(after.skip(l as int), n * m + total)
                    } else {
                        Err(Fault::Number)
                    },
                }
            },
        }
    }
}

#[via_fn]
proof fn offset_total_decreases(s: Seq<char>, total: int) {
    if s.len() > 0 {
        lemma_leading_digits_bound(s);
        lemma_leading_letters_bound(s.skip(leading_digits(s) as int));
    }
}

proof fn lemma_leading_digits_bound(s: Seq<char>)
    ensures
        leading_digits(s) <= s.len(),
    decreases s.len(),
{
    if s.len() > 0 {
        lemma_leading_digits_bound(s.drop_first());
    }
}

proof fn lemma_leading_letters_bound(s: Seq<char>)
    ensures
        leading_letters(s) <= s.len(),
    decreases s.len(),
{
    if s.len() > 0 {
        lemma_leading_letters_bound(s.drop_first());
    }
}

/// The total, in microseconds, of the time spans in `s`.
pub open spec fn offset_usecs(s: Seq<char>) -> Result<int, Fault> {
    offset_total(s, 0)
}

pub proof fn lemma_leading_digits(s: Seq<char>, k: int)
    requires
        0 <= k <= s.len(),
        forall|i: int| 0 <= i < k ==> is_digit(#[trigger] s[i]),
        k < s.len() ==> !is_digit(s[k]),
    ensures
        leading_digits(s) == k,
    decreases k,
{
    if k > 0 {
        lemma_leading_digits(s.drop_first(), k - 1);
    }
}

pub proof fn lemma_leading_letters(s: Seq<char>, k: int)
    requires
        0 <= k <= s.len(),
        forall|i: int| 0 <= i < k ==> is_letter(#[trigger] s[i]),
        k < s.len() ==> !is_letter(s[k]),
    ensures
        leading_letters(s) == k,
    decreases k,
{
    if k > 0 {
        lemma_leading_letters(s.drop_first(), k - 1);
    }
}

proof fn lemma_decimal_nonneg(s: Seq<char>)
    requires
        all_digits(s),
    ensures
        decimal(s) >= 0,
    decreases s.len(),
{
    if s.len() > 0 {
        lemma_decimal_nonneg(s.drop_last());
    }
}

proof fn lemma_decimal_grows(s: Seq<char>, i: int)
    requires
        all_digits(s),
        0 <= i <= s.len(),
    ensures
        decimal(s.take(i)) <= decimal(s),
    decreases s.len(),
{
    if i < s.len() {
        assert(s.drop_last().take(i) == s.take(i));
        lemma_decimal_grows(s.drop_last(), i);
        lemma_decimal_nonneg(s.drop_last());
    } else {
        assert(s.take(i) == s);
    }
}

/// Reads the run of decimal digits `s` as an `i64`.
pub fn parse_digits(s: &str) -> (r: Option<i64>)
    ensures
        r is Some <==> digits_value(s@) is Some,
        r matches Some(v) ==> v == digits_value(s@)->0,
{
    let cs = chars_of(s);
    if cs.len() == 0 {
        return None;
    }
    let mut value: i128 = 0;
    let mut i: usize = 0;
    while i < cs.len()
        invariant
            cs@ == s@,
            i <= cs.len(),
            all_digits(s@.take(i as int)),
            0 <= value <= 9223372036854775807,
            value == decimal(s@.take(i as int)),
        decreases cs.len() - i,
    {
        let c = cs[i];
        if !char_is_digit(c) {
            assert(s@[i as int] == c);
            return None;
        }
        let next = value * 10 + (c as u32 - '0' as u32) as i128;
        assert(s@.take(i + 1).drop_last() == s@.take(i as int));
        assert(s@.take(i + 1).last() == c);
        if next > 9223372036854775807 {
            proof {
                assert(all_digits(s@.take(i + 1)));
                if all_digits(s@) {
                    lemma_decimal_grows(s@, i + 1);
                    assert(s@.take(s@.len() as int) == s@);
                }
            }
            return None;
        }
        value = next;
        i = i + 1;
    }
    assert(s@.take(s@.len() as int) == s@);
    Some(value as i64)
}

/// Parses and combines all time spans of `ts_nw`, a text with its whitespace
/// removed, into one total of microseconds.
pub fn parse_offset(ts_nw: &str) -> (r: Result<i64, Error>)
    ensures
        match offset_usecs(ts_nw@) {
            Ok(v) => r matches Ok(u) && u == v,
            Err(f) => reports(r, f),
        },
{
    let mut rest: &str = ts_nw;
    let mut total_usecs: i64 = 0;
    loop
        invariant
            offset_total(rest@, total_usecs as int) == offset_usecs(ts_nw@),
        decreases rest@.len(),
    {
        if rest.is_empty() {
            return Ok(total_usecs);
        }
        /*
         * Time spans have the format: "<number><multiplier>"
         */
        let (digits, tail) = partition_predicate(rest, char_is_digit);
        let (letters, tail) = partition_predicate(tail, char_is_alphabetic);
        proof {
            lemma_leading_digits(rest@, digits@.len() as int);
            assert(rest@.take(digits@.len() as int) == digits@);
            assert(rest@.skip(digits@.len() as int) == letters@ + tail@);
            lemma_leading_letters(letters@ + tail@, letters@.len() as int);
            assert((letters@ + tail@).take(letters@.len() as int) == letters@);
            assert((letters@ + tail@).skip(letters@.len() as int) == tail@);
        }
        let multiplier = match usec_multiplier(letters) {
            Some(m) => m,
            None => {
                return Err(Error::TimeUnit(letters.to_owned()));
            },
        };
        let number = match parse_digits(digits) {
            Some(n) => n,
            None => {
                return Err(
                    Error::Number(
                        String::from_str("Cannot parse `").concat(digits).concat(
                            "` into a number",
                        ),
                    ),
                );
            },
        };
        let usecs = match number.checked_mul(multiplier) {
            Some(p) => p.checked_add(total_usecs),
            None => None,
        };
        match usecs {
            Some(u) => {
                total_usecs = u;
                rest = tail;
            },
            None => {
                return Err(
                    Error::Number(String::from_str("Offset microseconds overflowed")),
                );
            },
        }
    }
}


proof fn lemma_leading_digits_facts(s: Seq<char>)
    ensures
        leading_digits(s) <= s.len(),
        forall|i: int| 0 <= i < leading_digits(s) ==> is_digit(#[trigger] s[i]),
        leading_digits(s) < s.len() ==> !is_digit(s[leading_digits(s) as int]),
    decreases s.len(),
{
    if s.len() > 0 && is_digit(s[0]) {
        let t = s.drop_first();
        lemma_leading_digits_facts(t);
        assert forall|i: int| 0 <= i < leading_digits(s) implies is_digit(#[trigger] s[i]) by {
            if i > 0 {
                assert(s[i] == t[i - 1]);
            }
        }
    }
}

proof fn lemma_leading_letters_facts(s: Seq<char>)
    ensures
        leading_letters(s) <= s.len(),
        forall|i: int| 0 <= i < leading_letters(s) ==> is_letter(#[trigger] s[i]),
        leading_letters(s) < s.len() ==> !is_letter(s[leading_letters(s) as int]),
    decreases s.len(),
{
    if s.len() > 0 && is_letter(s[0]) {
        let t = s.drop_first();
        lemma_leading_letters_facts(t);
        assert forall|i: int| 0 <= i < leading_letters(s) implies is_letter(#[trigger] s[i]) by {
            if i > 0 {
                assert(s[i] == t[i - 1]);
            }
        }
    }
}

/// Adding text after a run of digits that does not start with a digit keeps the run.
proof fn lemma_leading_digits_concat(a: Seq<char>, b: Seq<char>)
    requires
        leading_digits(a) < a.len() || b.len() == 0 || !is_digit(b[0]),
    ensures
        leading_digits(a + b) == leading_digits(a),
{
    lemma_leading_digits_facts(a);
    let k = leading_digits(a) as int;
    assert forall|i: int| 0 <= i < k implies is_digit(#[trigger] (a + b)[i]) by {
        assert((a + b)[i] == a[i]);
    }
    if k < a.len() {
        assert((a + b)[k] == a[k]);
    } else if b.len() > 0 {
        assert((a + b)[k] == b[0]);
    }
    lemma_leading_digits(a + b, k);
}

/// Adding text after a run of letters that does not start with a letter keeps the run.
proof fn lemma_leading_letters_concat(a: Seq<char>, b: Seq<char>)
    requires
        leading_letters(a) < a.len() || b.len() == 0 || !is_letter(b[0]),
    ensures
        leading_letters(a + b) == leading_letters(a),
{
    lemma_leading_letters_facts(a);
    let k = leading_letters(a) as int;
    assert forall|i: int| 0 <= i < k implies is_letter(#[trigger] (a + b)[i]) by {
        assert((a + b)[i] == a[i]);
    }
    if k < a.len() {
        assert((a + b)[k] == a[k]);
    } else if b.len() > 0 {
        assert((a + b)[k] == b[0]);
    }
    lemma_leading_letters(a + b, k);
}

/// Time spans add up: when `a` ends with a unit and `b` starts with a number,
/// the spans of `a` followed by `b` come to the total of `a`'s spans with
/// `b`'s spans added; so repeated units are summed, never overwritten.
pub proof fn lemma_offset_concat(a: Seq<char>, b: Seq<char>, total: int)
    requires
        a.len() == 0 || is_letter(a.last()),
        b.len() == 0 || is_digit(b[0]),
    ensures
        offset_total(a + b, total) == match offset_total(a, total) {
            Ok(t) => offset_total(b, t),
            Err(f) => Err(f),
        },
    decreases a.len(),
{
    if a.len() == 0 {
        assert(a + b =~= b);
    } else {
        lemma_leading_digits_facts(a);
        let d = leading_digits(a) as int;
        if d == a.len() {
            assert(is_digit(a[d - 1]));
        }
        lemma_leading_digits_concat(a, b);
        let after = a.skip(d);
        assert((a + b).skip(d) =~= after + b);
        assert((a + b).take(d) =~= a.take(d));
        lemma_leading_letters_facts(after);
        let l = leading_letters(after) as int;
        lemma_leading_letters_concat(after, b);
        assert((after + b).take(l) =~= after.take(l));
        assert((after + b).skip(l) =~= after.skip(l) + b);
        let rest = after.skip(l);
        if rest.len() > 0 {
            assert(rest.last() == a.last());
        }
        match unit_usecs(after.take(l)) {
            Some(m) => match digits_value(a.take(d)) {
                Some(n) => {
                    if d > 0 && in_i64(n * m) && in_i64(n * m + total) {
                        lemma_offset_concat(rest, b, n * m + total);
                    }
                },
                None => {},
            },
            None => {},
        }
    }
}

pub open spec fn all_letters(s: Seq<char>) -> bool {
    forall|i: int| 0 <= i < s.len() ==> is_letter(#[trigger] s[i])
}

/// Every spelling of a unit is a run of letters.
pub proof fn lemma_spellings_are_letters(u: Seq<char>)
    ensures
        unit_usecs(u) is Some ==> all_letters(u),
{
    reveal_strlit("us");
    reveal_strlit("usec");
    reveal_strlit("\u{b5}s");
    reveal_strlit("ms");
    reveal_strlit("msec");
    reveal_strlit("s");
    reveal_strlit("sec");
    reveal_strlit("second");
    reveal_strlit("seconds");
    reveal_strlit("m");
    reveal_strlit("min");
    reveal_strlit("minute");
    reveal_strlit("minutes");
    reveal_strlit("h");
    reveal_strlit("hour");
    reveal_strlit("hours");
    reveal_strlit("hr");
    reveal_strlit("d");
    reveal_strlit("day");
    reveal_strlit("days");
    reveal_strlit("M");
    reveal_strlit("month");
    reveal_strlit("months");
    reveal_strlit("w");
    reveal_strlit("week");
    reveal_strlit("weeks");
    reveal_strlit("y");
    reveal_strlit("year");
    reveal_strlit("years");
    assert(all_letters("us"@));
    assert(all_letters("usec"@));
    assert(all_letters("\u{b5}s"@));
    assert(all_letters("ms"@));
    assert(all_letters("msec"@));
    assert(all_letters("s"@));
    assert(all_letters("sec"@));
    assert(all_letters("second"@));
    assert(all_letters("seconds"@));
    assert(all_letters("m"@));
    assert(all_letters("min"@));
    assert(all_letters("minute"@));
    assert(all_letters("minutes"@));
    assert(all_letters("h"@));
    assert(all_letters("hour"@));
    assert(all_letters("hours"@));
    assert(all_letters("hr"@));
    assert(all_letters("d"@));
    assert(all_letters("day"@));
    assert(all_letters("days"@));
    assert(all_letters("M"@));
    assert(all_letters("month"@));
    assert(all_letters("months"@));
    assert(all_letters("w"@));
    assert(all_letters("week"@));
    assert(all_letters("weeks"@));
    assert(all_letters("y"@));
    assert(all_letters("year"@));
    assert(all_letters("years"@));
}

/// Every spelling of a unit counts alike: a number followed by either of two
/// spellings of the same unit gives the same span.
pub proof fn lemma_unit_spellings(digits: Seq<char>, u1: Seq<char>, u2: Seq<char>)
    requires
        digits.len() > 0,
        all_digits(digits),
        unit_usecs(u1) is Some,
        unit_usecs(u1) == unit_usecs(u2),
    ensures
        offset_usecs(digits + u1) == offset_usecs(digits + u2),
{
    lemma_spellings_are_letters(u1);
    lemma_spellings_are_letters(u2);
    lemma_spelled_span(digits, u1);
    lemma_spelled_span(digits, u2);
}

/// The span of a number and a spelled unit.
pub proof fn lemma_spelled_span(digits: Seq<char>, u: Seq<char>)
    requires
        all_digits(digits),
        all_letters(u),
    ensures
        offset_usecs(digits + u) == if digits.len() == 0 && u.len() == 0 {
            Ok(0)
        } else {
            match unit_usecs(u) {
                None => Err(Fault::TimeUnit(u)),
                Some(m) => if digits.len() == 0 {
                    Err(Fault::Number)
                } else {
                    match digits_value(digits) {
                        None => Err(Fault::Number),
                        Some(n) => if in_i64(n * m) {
                            Ok(n * m)
                        } else {
                            Err(Fault::Number)
                        },
                    }
                },
            }
        },
{
    let s = digits + u;
    if s.len() > 0 {
        if u.len() > 0 {
            assert(!is_digit(u[0]));
        }
        assert forall|i: int| 0 <= i < digits.len() implies is_digit(#[trigger] s[i]) by {
            assert(s[i] == digits[i]);
        }
        if digits.len() < s.len() {
            assert(s[digits.len() as int] == u[0]);
        }
        lemma_leading_digits(s, digits.len() as int);
        assert(s.take(digits.len() as int) =~= digits);
        assert(s.skip(digits.len() as int) =~= u);
        lemma_leading_letters(u, u.len() as int);
        assert(u.take(u.len() as int) =~= u);
        assert(u.skip(u.len() as int) =~= Seq::<char>::empty());
        reveal_with_fuel(offset_total, 2);
    } else {
        assert(digits.len() == 0 && u.len() == 0);
    }
}

/// The total of the spans of `s` with no bound on the size of any number in
/// it, nor on the total.
pub open spec fn span_sum(s: Seq<char>, total: int) -> Result<int, Fault>
    decreases s.len(),
    via span_sum_decreases
{
    if s.len() == 0 {
        Ok(total)
    } else {
        let d = leading_digits(s);
        let after = s.skip(d as int);
        let l = leading_letters(after);
        let unit = after.take(l as int);
        match unit_usecs(unit) {
            None => Err(Fault::TimeUnit(unit)),
            Some(m) => if d == 0 {
                Err(Fault::Number)
            } else {
                span_sum(after.skip(l as int), decimal(s.take(d as int)) * m + total)
            },
        }
    }
}

#[via_fn]
proof fn span_sum_decreases(s: Seq<char>, total: int) {
    if s.len() > 0 {
        lemma_leading_digits_bound(s);
        lemma_leading_letters_bound(s.skip(leading_digits(s) as int));
    }
}

proof fn lemma_units_positive(u: Seq<char>)
    ensures
        unit_usecs(u) matches Some(m) ==> m > 0,
{
}

/// Offsets never wrap: when the spans of `s`, each number read whatever its
/// size, add up to a total that does not fit in an `i64`, reading them fails
/// with a number error; otherwise it gives that total exactly.
pub proof fn lemma_offset_overflow(s: Seq<char>, total: int)
    requires
        0 <= total <= i64::MAX,
    ensures
        span_sum(s, total) matches Ok(v) ==> total <= v && offset_total(s, total) == if v
            <= i64::MAX {
            Ok(v)
        } else {
            Err(Fault::Number)
        },
    decreases s.len(),
{
    if s.len() > 0 {
        lemma_leading_digits_facts(s);
        let d = leading_digits(s) as int;
        let after = s.skip(d);
        lemma_leading_letters_facts(after);
        let l = leading_letters(after) as int;
        match unit_usecs(after.take(l)) {
            Some(m) => if d > 0 {
                let n = decimal(s.take(d));
                assert(all_digits(s.take(d)));
                lemma_decimal_nonneg(s.take(d));
                lemma_units_positive(after.take(l));
                assert(n <= n * m) by (nonlinear_arith)
                    requires
                        n >= 0,
                        m > 0,
                ;
                if in_i64(n * m) && in_i64(n * m + total) {
                    lemma_offset_overflow(after.skip(l), n * m + total);
                } else {
                    lemma_span_sum_grows(after.skip(l), n * m + total);
                }
            },
            None => {},
        }
    }
}

proof fn lemma_span_sum_grows(s: Seq<char>, total: int)
    ensures
        span_sum(s, total) matches Ok(v) ==> total <= v,
    decreases s.len(),
{
    if s.len() > 0 {
        lemma_leading_digits_facts(s);
        let d = leading_digits(s) as int;
        let after = s.skip(d);
        lemma_leading_letters_facts(after);
        let l = leading_letters(after) as int;
        match unit_usecs(after.take(l)) {
            Some(m) => if d > 0 {
                let n = decimal(s.take(d));
                assert(all_digits(s.take(d)));
                lemma_decimal_nonneg(s.take(d));
                lemma_units_positive(after.take(l));
                assert(n * m >= 0) by (nonlinear_arith)
                    requires
                        n >= 0,
                        m > 0,
                ;
                lemma_span_sum_grows(after.skip(l), n * m + total);
            },
            None => {},
        }
    }
}

} // verus!
