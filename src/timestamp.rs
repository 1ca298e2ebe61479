use vstd::prelude::*;

use crate::chars::{
    chars_of, is_space, lemma_strip_concat, lemma_strip_push, strip_spaces, strip_whitespace, text_of,
};
use crate::error::{Error, Fault};
use crate::local_datetime::{outcome, shift, Instant, LocalDateTime, Mapped, Moments};
use crate::offset::{
    all_digits, all_letters, decimal, digits_value, lemma_spelled_span, offset_usecs, parse_offset,
};
use crate::units::{lemma_unit_hour, USEC_PER_HOUR};
use crate::time::{follows, index_of, lemma_index_of, parse_time, parse_time_with, time_moments};
use crate::zone::{
    fits_calendar, moments_in_calendar, read_clock, zone_maps, zone_offset, ClockReading, Zone,
    NANOS_PER_SEC, SPAN,
};

verus! {

/// How a timestamp splits into a point in time and a time span.
pub enum Shape {
    /// A span, whitespace removed, after or (when the flag is clear) before now.
    FromNow(Seq<char>, bool),
    /// A span, whitespace removed, after the Unix epoch.
    FromEpoch(Seq<char>),
    /// A point in time alone.
    Time(Seq<char>),
    /// A point in time, whitespace intact, and a span after or (when the flag
    /// is clear) before it, whitespace removed.
    Shifted(Seq<char>, Seq<char>, bool),
}

pub open spec fn starts_with(s: Seq<char>, c: char) -> bool {
    s.len() > 0 && s[0] == c
}

pub open spec fn ends_with(s: Seq<char>, tail: Seq<char>) -> bool {
    s.len() >= tail.len() && s.skip(s.len() - tail.len()) == tail
}

pub open spec fn pair_at(s: Seq<char>, i: int, a: char, b: char) -> bool {
    0 <= i && i + 1 < s.len() && s[i] == a && s[i + 1] == b
}

/// The position of the first `a` followed by `b` in `s`.
pub open spec fn pair_index(s: Seq<char>, a: char, b: char) -> Option<int>
    decreases s.len(),
{
    if s.len() < 2 {
        None
    } else if s[0] == a && s[1] == b {
        Some(0)
    } else {
        match pair_index(s.drop_first(), a, b) {
            Some(i) => Some(i + 1),
            None => None,
        }
    }
}

/// The position of the last `c` in `s`.
pub open spec fn last_index_of(s: Seq<char>, c: char) -> Option<int>
    decreases s.len(),
{
    if s.len() == 0 {
        None
    } else if s.last() == c {
        Some(s.len() - 1)
    } else {
        last_index_of(s.drop_last(), c)
    }
}

/// How the timestamp `ts` splits. Whitespace is removed for the span but kept
/// for the point in time and for finding the split: a `+` or `-` in the
/// general case must follow a space, so that the `-` inside a date does not
/// count; the span then starts after the first `+`, or after the last `-`, of
/// the text without whitespace.
pub open spec fn shape(ts: Seq<char>) -> Result<Shape, Fault> {
    let nw = strip_spaces(ts);
    if nw.len() == 0 {
        Err(Fault::Format)
    } else if starts_with(ts, '+') {
        Ok(Shape::FromNow(nw.skip(1), true))
    } else if ends_with(ts, " left"@) {
        Ok(Shape::FromNow(nw.take(nw.len() - 4), true))
    } else if starts_with(ts, '-') {
        Ok(Shape::FromNow(nw.skip(1), false))
    } else if ends_with(ts, " ago"@) {
        Ok(Shape::FromNow(nw.take(nw.len() - 3), false))
    } else if starts_with(ts, '@') {
        Ok(Shape::FromEpoch(nw.skip(1)))
    } else {
        match (pair_index(ts, ' ', '+'), pair_index(ts, ' ', '-')) {
            (Some(_), Some(_)) => Err(Fault::Format),
            (Some(p), None) => Ok(Shape::Shifted(ts.take(p), nw.skip(index_of(nw, '+')->0 + 1), true)),
            (None, Some(m)) => Ok(
                Shape::Shifted(ts.take(m), nw.skip(last_index_of(nw, '-')->0 + 1), false),
            ),
            (None, None) => Ok(Shape::Time(ts)),
        }
    }
}

/// `usecs` microseconds as nanoseconds, forward or backward.
pub open spec fn signed_nanos(usecs: int, later: bool) -> int {
    if later {
        usecs * 1000
    } else {
        -(usecs * 1000)
    }
}

/// What the timestamp `ts` stands for in a zone `offset` seconds east of UTC
/// at the instant `now`, when `m` gives the instants of each civil time: the
/// point in time, moved by the span; or the first error met, the point in
/// time's before the span's. A result beyond chrono's calendar is a number
/// error.
pub open spec fn timestamp_moments(
    ts: Seq<char>,
    offset: int,
    now: int,
    m: spec_fn(int) -> Option<Moments>,
) -> Result<Moments, Fault> {
    held(timestamp_reading(ts, offset, now, m))
}

/// `r`, when its instants lie in chrono's calendar; a number error otherwise.
pub open spec fn held(r: Result<Moments, Fault>) -> Result<Moments, Fault> {
    match r {
        Ok(x) => if moments_in_calendar(x) {
            Ok(x)
        } else {
            Err(Fault::Number)
        },
        Err(f) => Err(f),
    }
}

/// What the timestamp `ts` stands for, as `timestamp_moments` says, before
/// the result is held to the calendar.
pub open spec fn timestamp_reading(
    ts: Seq<char>,
    offset: int,
    now: int,
    m: spec_fn(int) -> Option<Moments>,
) -> Result<Moments, Fault> {
    match shape(ts) {
        Err(f) => Err(f),
        Ok(Shape::FromNow(text, later)) => match offset_usecs(text) {
            Err(f) => Err(f),
            Ok(u) => Ok(Moments::Single(now + signed_nanos(u, later))),
        },
        Ok(Shape::FromEpoch(text)) => match offset_usecs(text) {
            Err(f) => Err(f),
            Ok(u) => Ok(Moments::Single(u * 1000)),
        },
        Ok(Shape::Time(t)) => time_moments(t, offset, now, m),
        Ok(Shape::Shifted(t, text, later)) => match time_moments(t, offset, now, m) {
            Err(f) => Err(f),
            Ok(x) => match offset_usecs(text) {
                Err(f) => Err(f),
                Ok(u) => Ok(shift(x, signed_nanos(u, later))),
            },
        },
    }
}

proof fn lemma_pair_index(s: Seq<char>, a: char, b: char, k: int)
    requires
        0 <= k,
        forall|j: int| 0 <= j < k ==> !pair_at(s, j, a, b),
        pair_at(s, k, a, b) || k + 1 >= s.len(),
    ensures
        pair_index(s, a, b) == if pair_at(s, k, a, b) {
            Some(k)
        } else {
            None::<int>
        },
    decreases k,
{
    if s.len() >= 2 && k > 0 {
        assert forall|j: int| 0 <= j < k - 1 implies !pair_at(s.drop_first(), j, a, b) by {
            assert(!pair_at(s, j + 1, a, b));
        }
        assert(!pair_at(s, 0, a, b));
        lemma_pair_index(s.drop_first(), a, b, k - 1);
    }
}

proof fn lemma_last_index_of(s: Seq<char>, c: char, k: int)
    requires
        -1 <= k < s.len(),
        forall|j: int| k < j < s.len() ==> s[j] != c,
        k >= 0 ==> s[k] == c,
    ensures
        last_index_of(s, c) == if k >= 0 {
            Some(k)
        } else {
            None::<int>
        },
    decreases s.len(),
{
    if s.len() > 0 && k < s.len() - 1 {
        lemma_last_index_of(s.drop_last(), c, k);
    }
}

/// The first `a` followed by `b` in `cs`.
fn find_pair(cs: &Vec<char>, a: char, b: char) -> (r: Option<usize>)
    ensures
        r matches Some(i) ==> pair_index(cs@, a, b) == Some(i as int),
        r is None ==> pair_index(cs@, a, b) is None,
        r matches Some(i) ==> pair_at(cs@, i as int, a, b),
{
    let mut p: usize = 0;
    while p < cs.len() && p + 1 < cs.len() && !(cs[p] == a && cs[p + 1] == b)
        invariant
            forall|j: int| 0 <= j < p ==> !pair_at(cs@, j, a, b),
            p <= cs.len(),
        decreases cs.len() - p,
    {
        p = p + 1;
    }
    proof {
        lemma_pair_index(cs@, a, b, p as int);
    }
    if p < cs.len() && p + 1 < cs.len() {
        Some(p)
    } else {
        None
    }
}

/// The first `c` in `cs`.
fn find_char(cs: &Vec<char>, c: char) -> (r: Option<usize>)
    ensures
        r matches Some(i) ==> index_of(cs@, c) == Some(i as int),
        r is None ==> index_of(cs@, c) is None,
        r is None ==> forall|j: int| 0 <= j < cs.len() ==> cs@[j] != c,
        r matches Some(i) ==> i < cs.len(),
{
    let mut p: usize = 0;
    while p < cs.len() && cs[p] != c
        invariant
            p <= cs.len(),
            forall|j: int| 0 <= j < p ==> cs@[j] != c,
        decreases cs.len() - p,
    {
        p = p + 1;
    }
    proof {
        lemma_index_of(cs@, c, p as int);
    }
    if p < cs.len() {
        Some(p)
    } else {
        None
    }
}

/// The last `c` in `cs`.
fn rfind_char(cs: &Vec<char>, c: char) -> (r: Option<usize>)
    ensures
        r matches Some(i) ==> last_index_of(cs@, c) == Some(i as int),
        r is None ==> last_index_of(cs@, c) is None,
        r is None ==> forall|j: int| 0 <= j < cs.len() ==> cs@[j] != c,
        r matches Some(i) ==> i < cs.len(),
{
    let mut p: usize = cs.len();
    while p > 0 && cs[p - 1] != c
        invariant
            p <= cs.len(),
            forall|j: int| p <= j < cs.len() ==> cs@[j] != c,
        decreases p,
    {
        p = p - 1;
    }
    proof {
        lemma_last_index_of(cs@, c, p - 1);
    }
    if p > 0 {
        Some(p - 1)
    } else {
        None
    }
}

/// A character of `s` that is not whitespace is kept by stripping.
proof fn lemma_strip_keeps(s: Seq<char>, i: int)
    requires
        0 <= i < s.len(),
        !is_space(s[i]),
    ensures
        strip_spaces(s).contains(s[i]),
{
    assert(s == s.take(i) + s.skip(i));
    assert(s.skip(i) == seq![s[i]] + s.skip(i + 1));
    lemma_strip_concat(s.take(i), s.skip(i));
    lemma_strip_concat(seq![s[i]], s.skip(i + 1));
    assert(seq![s[i]] == Seq::<char>::empty().push(s[i]));
    lemma_strip_push(Seq::<char>::empty(), s[i]);
    assert(strip_spaces(Seq::<char>::empty()) =~= Seq::<char>::empty()) by {
        reveal(Seq::filter);
    }
    assert(strip_spaces(s)[strip_spaces(s.take(i)).len() as int] == s[i]);
}

/// Stripping a text that ends with `word`, which holds no whitespace, keeps
/// at least as many characters as `word` has.
proof fn lemma_strip_word(s: Seq<char>, word: Seq<char>)
    requires
        ends_with(s, word),
        forall|i: int| 0 <= i < word.len() ==> !is_space(#[trigger] word[i]),
    ensures
        strip_spaces(s).len() >= word.len(),
    decreases word.len(),
{
    if word.len() > 0 {
        let s0 = s.drop_last();
        let w0 = word.drop_last();
        assert(s0.skip(s0.len() - w0.len()) == w0);
        lemma_strip_word(s0, w0);
        assert(s == s0.push(s.last()));
        assert(s.last() == word.last());
        lemma_strip_push(s0, s.last());
    }
}

/// The executable form of a `Shape`.
pub enum Split {
    FromNow { text: String, later: bool },
    FromEpoch { text: String },
    Time { time: String },
    Shifted { time: String, text: String, later: bool },
}

impl Split {
    pub open spec fn shape(&self) -> Shape {
        match self {
            Split::FromNow { text, later } => Shape::FromNow(text@, *later),
            Split::FromEpoch { text } => Shape::FromEpoch(text@),
            Split::Time { time } => Shape::Time(time@),
            Split::Shifted { time, text, later } => Shape::Shifted(time@, text@, *later),
        }
    }
}

/// Whether `cs` ends with a space and then `word`.
fn ends_with_word(cs: &Vec<char>, word: &str) -> (r: bool)
    ensures
        r == ends_with(cs@, seq![' '] + word@),
{
    let w = chars_of(word);
    let n = cs.len();
    let k = w.len();
    if n <= k || cs[n - k - 1] != ' ' {
        proof {
            if n >= k + 1 {
                assert(cs@.skip(n - k - 1)[0] == cs@[n - k - 1]);
                assert((seq![' '] + word@)[0] == ' ');
            }
        }
        return false;
    }
    let mut i: usize = 0;
    while i < k
        invariant
            w@ == word@,
            n == cs.len(),
            k == w.len(),
            n > k,
            cs@[n - k - 1] == ' ',
            i <= k,
            forall|j: int| 0 <= j < i ==> cs@[n - k + j] == w@[j],
        decreases k - i,
    {
        if cs[n - k + i] != w[i] {
            proof {
                assert(cs@.skip(n - k - 1)[i + 1] == cs@[n - k + i]);
                assert((seq![' '] + word@)[i + 1] == w@[i as int]);
            }
            return false;
        }
        i = i + 1;
    }
    assert(cs@.skip(n - k - 1) =~= seq![' '] + word@);
    true
}

/// Splits the timestamp `ts` into its point in time and its time span.
pub fn split_timestamp(ts: &str) -> (r: Result<Split, Error>)
    ensures
        match shape(ts@) {
            Ok(sh) => r matches Ok(sp) && sp.shape() == sh,
            Err(f) => r matches Err(e) && e.fault() == f,
        },
{
    let cs = chars_of(ts);
    let nw = strip_whitespace(cs.as_slice());
    let n = cs.len();
    let k = nw.len();
    if k == 0 {
        return Err(Error::Format(String::from_str("Timestamp cannot be empty")));
    }
    let ts_nw = text_of(nw.as_slice());
    let ts_nw = ts_nw.as_str();
    proof {
        assert(n > 0) by {
            if n == 0 {
                assert(cs@ =~= Seq::<char>::empty());
                reveal(Seq::filter);
            }
        }
    }
    /*
     * A timestamp is composed of two parts: a time and an offset relative to that time.
     *
     * In the general case, the time is separated from the offset by either a '+' or '-'
     * character which denotes how the offset is relative to that time.
     *
     * There are a few special cases which are not handled by the general case.
     * These are detected, and handled, before applying the general case algorithm.
     */
    // Special Case 1 - a suffix of " left" or " ago", or a prefix of '+' or '-':
    //  - the time is now.
    //  - the offset consists of the remaining characters added to or subtracted from the current time, respectively.
    if cs[0] == '+' {
        let text = ts_nw.substring_char(1, k);
        assert(text@ =~= nw@.skip(1));
        return Ok(Split::FromNow { text: text.to_owned(), later: true });
    }
    let left = ends_with_word(&cs, "left");
    proof {
        reveal_strlit("left");
        reveal_strlit(" left");
        assert(seq![' '] + "left"@ =~= " left"@);
        if left {
            assert(cs@.skip(n - 4) =~= cs@.skip(n - 5).skip(1));
            assert(" left"@.skip(1) =~= "left"@);
            lemma_strip_word(cs@, "left"@);
        }
    }
    if left {
        let text = ts_nw.substring_char(0, k - 4);
        assert(text@ =~= nw@.take(k - 4));
        return Ok(Split::FromNow { text: text.to_owned(), later: true });
    }
    if cs[0] == '-' {
        let text = ts_nw.substring_char(1, k);
        assert(text@ =~= nw@.skip(1));
        return Ok(Split::FromNow { text: text.to_owned(), later: false });
    }
    let ago = ends_with_word(&cs, "ago");
    proof {
        reveal_strlit("ago");
        reveal_strlit(" ago");
        assert(seq![' '] + "ago"@ =~= " ago"@);
        if ago {
            assert(cs@.skip(n - 3) =~= cs@.skip(n - 4).skip(1));
            assert(" ago"@.skip(1) =~= "ago"@);
            lemma_strip_word(cs@, "ago"@);
        }
    }
    if ago {
        let text = ts_nw.substring_char(0, k - 3);
        assert(text@ =~= nw@.take(k - 3));
        return Ok(Split::FromNow { text: text.to_owned(), later: false });
    }
    // Special Case 2 - a prefix of '@':
    //  - the time is the unix epoch.
    //  - the offset consists of the remaining characters added to the epoch time.
    if cs[0] == '@' {
        let text = ts_nw.substring_char(1, k);
        assert(text@ =~= nw@.skip(1));
        return Ok(Split::FromEpoch { text: text.to_owned() });
    }
    // General Case - the time is separated from the offset by either a '+' or '-'.
    // Note: need to find " +" and " -" here because strftime date formats may contain the '-' character,
    //       but with no leading whitespaces.
    match (find_pair(&cs, ' ', '+'), find_pair(&cs, ' ', '-')) {
        (Some(_), Some(_)) => Err(
            Error::Format(String::from_str("Timestamp cannot contain both a `+` and `-`")),
        ),
        (Some(p), None) => {
            let p_nw = match find_char(&nw, '+') {
                Some(i) => i,
                None => {
                    // unreachable: stripping keeps the `+` that follows the space
                    proof {
                        lemma_strip_keeps(cs@, p + 1);
                    }
                    return Err(Error::Format(String::from_str("Timestamp has no `+`")));
                },
            };
            let time = ts.substring_char(0, p);
            let text = ts_nw.substring_char(p_nw + 1, k);
            assert(time@ =~= ts@.take(p as int));
            assert(text@ =~= nw@.skip(p_nw + 1));
            Ok(Split::Shifted { time: time.to_owned(), text: text.to_owned(), later: true })
        },
        (None, Some(q)) => {
            let m_nw = match rfind_char(&nw, '-') {
                Some(i) => i,
                None => {
                    // unreachable: stripping keeps the `-` that follows the space
                    proof {
                        lemma_strip_keeps(cs@, q + 1);
                    }
                    return Err(Error::Format(String::from_str("Timestamp has no `-`")));
                },
            };
            let time = ts.substring_char(0, q);
            let text = ts_nw.substring_char(m_nw + 1, k);
            assert(time@ =~= ts@.take(q as int));
            assert(text@ =~= nw@.skip(m_nw + 1));
            Ok(Split::Shifted { time: time.to_owned(), text: text.to_owned(), later: false })
        },
        (None, None) => Ok(Split::Time { time: ts.to_owned() }),
    }
}

/// Reads a timestamp into its instants in `timezone`, with the clock at
/// `clock`, before they are held to the calendar.
fn read_timestamp(timestamp: &str, timezone: Zone, clock: ClockReading) -> (r: Result<
    LocalDateTime,
    Error,
>)
    requires
        -SPAN <= clock.now.nanos <= SPAN,
    ensures
        exists|m: spec_fn(int) -> Option<Moments>|
            zone_maps(timezone, m) && outcome(r) == timestamp_reading(
                timestamp@,
                zone_offset(timezone, clock),
                clock.now.nanos as int,
                m,
            ),
{
    let ghost rule = |c: int|
        match timezone {
            Zone::Utc => Some(Moments::Single(c)),
            Zone::Fixed(east) => Some(Moments::Single(c - east * NANOS_PER_SEC)),
            Zone::Local => None::<Moments>,
        };
    assert(zone_maps(timezone, rule));
    let split = match split_timestamp(timestamp) {
        Ok(sp) => sp,
        Err(e) => {
            return Err(e);
        },
    };
    let now = LocalDateTime::Single(clock.now);
    match split {
        Split::FromNow { text, later } => match parse_offset(text.as_str()) {
            Ok(u) => if later {
                Ok(now.plus_micros(u))
            } else {
                Ok(now.minus_micros(u))
            },
            Err(e) => Err(e),
        },
        Split::FromEpoch { text } => match parse_offset(text.as_str()) {
            Ok(u) => Ok(LocalDateTime::Single(Instant { nanos: 0 }).plus_micros(u)),
            Err(e) => Err(e),
        },
        Split::Time { time } => parse_time(time.as_str(), timezone, clock),
        Split::Shifted { time, text, later } => {
            let base = parse_time(time.as_str(), timezone, clock);
            let ghost m = choose|m: spec_fn(int) -> Option<Moments>|
                zone_maps(timezone, m) && outcome(base) == time_moments(
                    time@,
                    zone_offset(timezone, clock),
                    clock.now.nanos as int,
                    m,
                );
            let base = match base {
                Ok(b) => b,
                Err(e) => {
                    return Err(e);
                },
            };
            match parse_offset(text.as_str()) {
                Ok(u) => if later {
                    Ok(base.plus_micros(u))
                } else {
                    Ok(base.minus_micros(u))
                },
                Err(e) => Err(e),
            }
        },
    }
}

/// Reads a timestamp into its instants in a zone `offset` seconds east of UTC
/// at the instant `now`, where `resolve` gives the instants of a civil time,
/// before they are held to the calendar.
fn read_timestamp_with<F: Fn(i128) -> Mapped<Instant>>(
    timestamp: &str,
    offset: i32,
    now: Instant,
    resolve: F,
) -> (r: Result<
    LocalDateTime,
    Error,
>)
    requires
        -SPAN <= now.nanos <= SPAN,
        forall|c: i128| resolve.requires((c,)),
    ensures
        exists|m: spec_fn(int) -> Option<Moments>|
            follows(resolve, m) && outcome(r) == timestamp_reading(
                timestamp@,
                offset as int,
                now.nanos as int,
                m,
            ),
{
    let ghost none = |c: int| None::<Moments>;
    assert(follows(resolve, none));
    let split = match split_timestamp(timestamp) {
        Ok(sp) => sp,
        Err(e) => {
            return Err(e);
        },
    };
    let from = LocalDateTime::Single(now);
    match split {
        Split::FromNow { text, later } => match parse_offset(text.as_str()) {
            Ok(u) => if later {
                Ok(from.plus_micros(u))
            } else {
                Ok(from.minus_micros(u))
            },
            Err(e) => Err(e),
        },
        Split::FromEpoch { text } => match parse_offset(text.as_str()) {
            Ok(u) => Ok(LocalDateTime::Single(Instant { nanos: 0 }).plus_micros(u)),
            Err(e) => Err(e),
        },
        Split::Time { time } => parse_time_with(time.as_str(), offset, now, resolve),
        Split::Shifted { time, text, later } => {
            let base = parse_time_with(time.as_str(), offset, now, resolve);
            let ghost m = choose|m: spec_fn(int) -> Option<Moments>|
                follows(resolve, m) && outcome(base) == time_moments(
                    time@,
                    offset as int,
                    now.nanos as int,
                    m,
                );
            let base = match base {
                Ok(b) => b,
                Err(e) => {
                    return Err(e);
                },
            };
            match parse_offset(text.as_str()) {
                Ok(u) => if later {
                    Ok(base.plus_micros(u))
                } else {
                    Ok(base.minus_micros(u))
                },
                Err(e) => Err(e),
            }
        },
    }
}

/// `read`, when its instants lie in chrono's calendar; a number error
/// otherwise.
fn hold(read: Result<LocalDateTime, Error>) -> (r: Result<LocalDateTime, Error>)
    ensures
        outcome(r) == held(outcome(read)),
{
    match read {
        Ok(v) => {
            let fits = match v {
                LocalDateTime::Single(a) => fits_calendar(a.nanos),
                LocalDateTime::Ambiguous(a, b) => fits_calendar(a.nanos) && fits_calendar(b.nanos),
            };
            if fits {
                Ok(v)
            } else {
                Err(Error::Number(String::from_str("Timestamp lies beyond the calendar")))
            }
        },
        Err(e) => Err(e),
    }
}

/// Parses a timestamp into its instants in `timezone`, with the clock at
/// `clock`.
pub fn parse_timestamp_at(timestamp: &str, timezone: Zone, clock: ClockReading) -> (r: Result<
    LocalDateTime,
    Error,
>)
    requires
        timezone.valid(),
        -SPAN <= clock.now.nanos <= SPAN,
    ensures
        exists|m: spec_fn(int) -> Option<Moments>|
            zone_maps(timezone, m) && outcome(r) == timestamp_moments(
                timestamp@,
                zone_offset(timezone, clock),
                clock.now.nanos as int,
                m,
            ),
{
    let read = read_timestamp(timestamp, timezone, clock);
    let ghost m = choose|m: spec_fn(int) -> Option<Moments>|
        zone_maps(timezone, m) && outcome(read) == timestamp_reading(
            timestamp@,
            zone_offset(timezone, clock),
            clock.now.nanos as int,
            m,
        );
    hold(read)
}

/// Parses a timestamp into its instants in a zone `offset` seconds east of
/// UTC at the instant `now`, where `resolve` gives the instants of a civil
/// time, in nanoseconds since 1970-01-01T00:00:00 on the zone's clock: this
/// serves any zone that can convert civil times.
pub fn parse_timestamp_with<F: Fn(i128) -> Mapped<Instant>>(
    timestamp: &str,
    offset: i32,
    now: Instant,
    resolve: F,
) -> (r: Result<LocalDateTime, Error>)
    requires
        -SPAN <= now.nanos <= SPAN,
        forall|c: i128| resolve.requires((c,)),
    ensures
        exists|m: spec_fn(int) -> Option<Moments>|
            follows(resolve, m) && outcome(r) == timestamp_moments(
                timestamp@,
                offset as int,
                now.nanos as int,
                m,
            ),
{
    let read = read_timestamp_with(timestamp, offset, now, resolve);
    let ghost m = choose|m: spec_fn(int) -> Option<Moments>|
        follows(resolve, m) && outcome(read) == timestamp_reading(
            timestamp@,
            offset as int,
            now.nanos as int,
            m,
        );
    hold(read)
}

/// Parses a timestamp into its instants in `timezone`, reading the clock for
/// the current time.
pub fn parse_timestamp_tz(timestamp: &str, timezone: Zone) -> (r: Result<LocalDateTime, Error>)
    requires
        timezone.valid(),
    ensures
        exists|clock: ClockReading, m: spec_fn(int) -> Option<Moments>|
            {
                &&& -86_400 < clock.local_offset < 86_400
                &&& zone_maps(timezone, m)
                &&& outcome(r) == timestamp_moments(
                    timestamp@,
                    zone_offset(timezone, clock),
                    clock.now.nanos as int,
                    m,
                )
            },
{
    let clock = read_clock();
    parse_timestamp_at(timestamp, timezone, clock)
}


/// Stripping keeps no character that the text lacks.
proof fn lemma_strip_lacks(s: Seq<char>, c: char)
    requires
        forall|i: int| 0 <= i < s.len() ==> s[i] != c,
    ensures
        forall|j: int| 0 <= j < strip_spaces(s).len() ==> strip_spaces(s)[j] != c,
    decreases s.len(),
{
    if s.len() == 0 {
        assert(strip_spaces(s) =~= Seq::<char>::empty()) by {
            reveal(Seq::filter);
        }
    } else {
        let s0 = s.drop_last();
        assert(s == s0.push(s.last()));
        lemma_strip_lacks(s0, c);
        lemma_strip_push(s0, s.last());
    }
}

/// Stripping a text without whitespace leaves it as it is.
proof fn lemma_strip_none(s: Seq<char>)
    requires
        forall|i: int| 0 <= i < s.len() ==> !is_space(#[trigger] s[i]),
    ensures
        strip_spaces(s) == s,
    decreases s.len(),
{
    if s.len() == 0 {
        assert(strip_spaces(s) =~= s) by {
            reveal(Seq::filter);
        }
    } else {
        let s0 = s.drop_last();
        assert(s == s0.push(s.last()));
        lemma_strip_none(s0);
        lemma_strip_push(s0, s.last());
    }
}

/// A point in time, then a space and a `+`, then a time span: the span,
/// whitespace removed, moves the point in time later. This holds where the
/// point in time has no `+` and no space before a `-`, the span no space
/// before a `-`, the point in time does not start with `+`, `-` or `@`, and
/// the whole does not end with ` left` or ` ago`.
pub proof fn lemma_time_plus_span(
    t: Seq<char>,
    x: Seq<char>,
    offset: int,
    now: int,
    m: spec_fn(int) -> Option<Moments>,
)
    requires
        !starts_with(t, '+') && !starts_with(t, '-') && !starts_with(t, '@'),
        forall|i: int| 0 <= i < t.len() ==> t[i] != '+',
        forall|j: int| !pair_at(t, j, ' ', '-'),
        forall|j: int| !pair_at(x, j, ' ', '-'),
        !ends_with(t + " +"@ + x, " left"@),
        !ends_with(t + " +"@ + x, " ago"@),
    ensures
        timestamp_moments(t + " +"@ + x, offset, now, m) == held(
            match time_moments(t, offset, now, m) {
                Err(f) => Err(f),
                Ok(b) => match offset_usecs(strip_spaces(x)) {
                    Err(f) => Err(f),
                    Ok(u) => Ok(shift(b, u * 1000)),
                },
            },
        ),
{
    reveal_strlit(" +");
    let ts = t + " +"@ + x;
    let l = t.len() as int;
    assert(ts[l] == ' ' && ts[l + 1] == '+');
    assert(ts == t + (" +"@ + x));
    lemma_strip_concat(t, " +"@ + x);
    lemma_strip_concat(" +"@, x);
    assert(" +"@ == Seq::<char>::empty().push(' ').push('+'));
    lemma_strip_push(Seq::<char>::empty(), ' ');
    lemma_strip_push(Seq::<char>::empty().push(' '), '+');
    assert(strip_spaces(Seq::<char>::empty()) =~= Seq::<char>::empty()) by {
        reveal(Seq::filter);
    }
    let st = strip_spaces(t);
    let nw = strip_spaces(ts);
    assert(strip_spaces(" +"@) =~= seq!['+']);
    assert(nw == st + (seq!['+'] + strip_spaces(x)));
    if l > 0 {
        assert(ts[0] == t[0]);
    }
    assert forall|j: int| 0 <= j < l implies !pair_at(ts, j, ' ', '+') by {
        if j < l - 1 {
            assert(ts[j + 1] == t[j + 1]);
        }
    }
    lemma_pair_index(ts, ' ', '+', l);
    assert forall|j: int| 0 <= j < ts.len() - 1 implies !pair_at(ts, j, ' ', '-') by {
        if j < l - 1 {
            assert(ts[j] == t[j] && ts[j + 1] == t[j + 1]);
            assert(!pair_at(t, j, ' ', '-'));
        } else if j >= l + 2 {
            assert(ts[j] == x[j - l - 2] && ts[j + 1] == x[j - l - 1]);
            assert(!pair_at(x, j - l - 2, ' ', '-'));
        }
    }
    lemma_pair_index(ts, ' ', '-', ts.len() - 1);
    lemma_strip_lacks(t, '+');
    assert(nw[st.len() as int] == '+');
    lemma_index_of(nw, '+', st.len() as int);
    assert(nw.skip(st.len() as int + 1) =~= strip_spaces(x));
    assert(ts.take(l) =~= t);
}

/// A point in time, then a space and a `-`, then a time span: the span,
/// whitespace removed, moves the point in time earlier. This holds where
/// neither part has a space before a `+` or a `-`, the span has no `-` (the
/// span starts after the last `-`), the point in time does not start with
/// `+`, `-` or `@`, and the whole does not end with ` left` or ` ago`.
pub proof fn lemma_time_minus_span(
    t: Seq<char>,
    x: Seq<char>,
    offset: int,
    now: int,
    m: spec_fn(int) -> Option<Moments>,
)
    requires
        !starts_with(t, '+') && !starts_with(t, '-') && !starts_with(t, '@'),
        forall|j: int| !pair_at(t, j, ' ', '+') && !pair_at(t, j, ' ', '-'),
        forall|j: int| !pair_at(x, j, ' ', '+'),
        forall|i: int| 0 <= i < x.len() ==> x[i] != '-',
        !ends_with(t + " -"@ + x, " left"@),
        !ends_with(t + " -"@ + x, " ago"@),
    ensures
        timestamp_moments(t + " -"@ + x, offset, now, m) == held(
            match time_moments(t, offset, now, m) {
                Err(f) => Err(f),
                Ok(b) => match offset_usecs(strip_spaces(x)) {
                    Err(f) => Err(f),
                    Ok(u) => Ok(shift(b, -(u * 1000))),
                },
            },
        ),
{
    reveal_strlit(" -");
    let ts = t + " -"@ + x;
    let l = t.len() as int;
    assert(ts[l] == ' ' && ts[l + 1] == '-');
    assert(ts == t + (" -"@ + x));
    lemma_strip_concat(t, " -"@ + x);
    lemma_strip_concat(" -"@, x);
    assert(" -"@ == Seq::<char>::empty().push(' ').push('-'));
    lemma_strip_push(Seq::<char>::empty(), ' ');
    lemma_strip_push(Seq::<char>::empty().push(' '), '-');
    assert(strip_spaces(Seq::<char>::empty()) =~= Seq::<char>::empty()) by {
        reveal(Seq::filter);
    }
    let st = strip_spaces(t);
    let sx = strip_spaces(x);
    let nw = strip_spaces(ts);
    assert(strip_spaces(" -"@) =~= seq!['-']);
    assert(nw == st + (seq!['-'] + sx));
    if l > 0 {
        assert(ts[0] == t[0]);
    }
    assert forall|j: int| 0 <= j < ts.len() - 1 implies !pair_at(ts, j, ' ', '+') by {
        if j < l - 1 {
            assert(ts[j] == t[j] && ts[j + 1] == t[j + 1]);
            assert(!pair_at(t, j, ' ', '+'));
        } else if j >= l + 2 {
            assert(ts[j] == x[j - l - 2] && ts[j + 1] == x[j - l - 1]);
            assert(!pair_at(x, j - l - 2, ' ', '+'));
        }
    }
    lemma_pair_index(ts, ' ', '+', ts.len() - 1);
    assert forall|j: int| 0 <= j < l implies !pair_at(ts, j, ' ', '-') by {
        if j < l - 1 {
            assert(ts[j + 1] == t[j + 1]);
            assert(!pair_at(t, j, ' ', '-'));
        }
    }
    lemma_pair_index(ts, ' ', '-', l);
    lemma_strip_lacks(x, '-');
    let k = st.len() as int;
    assert(nw[k] == '-');
    assert forall|j: int| k < j < nw.len() implies nw[j] != '-' by {
        assert(nw[j] == sx[j - k - 1]);
    }
    lemma_last_index_of(nw, '-', k);
    assert(nw.skip(k + 1) =~= sx);
    assert(ts.take(l) =~= t);
}

/// Whitespace in a time span counts for nothing: two spans that are alike but
/// for whitespace, after the same point in time and ` +`, give the same
/// result.
pub proof fn lemma_span_whitespace(
    t: Seq<char>,
    x: Seq<char>,
    y: Seq<char>,
    offset: int,
    now: int,
    m: spec_fn(int) -> Option<Moments>,
)
    requires
        strip_spaces(x) == strip_spaces(y),
        !starts_with(t, '+') && !starts_with(t, '-') && !starts_with(t, '@'),
        forall|i: int| 0 <= i < t.len() ==> t[i] != '+',
        forall|j: int| !pair_at(t, j, ' ', '-'),
        forall|j: int| !pair_at(x, j, ' ', '-'),
        forall|j: int| !pair_at(y, j, ' ', '-'),
        !ends_with(t + " +"@ + x, " left"@),
        !ends_with(t + " +"@ + x, " ago"@),
        !ends_with(t + " +"@ + y, " left"@),
        !ends_with(t + " +"@ + y, " ago"@),
    ensures
        timestamp_moments(t + " +"@ + x, offset, now, m) == timestamp_moments(
            t + " +"@ + y,
            offset,
            now,
            m,
        ),
{
    lemma_time_plus_span(t, x, offset, now, m);
    lemma_time_plus_span(t, y, offset, now, m);
}

/// Whitespace in a time span counts for nothing after ` -` either.
pub proof fn lemma_span_whitespace_minus(
    t: Seq<char>,
    x: Seq<char>,
    y: Seq<char>,
    offset: int,
    now: int,
    m: spec_fn(int) -> Option<Moments>,
)
    requires
        strip_spaces(x) == strip_spaces(y),
        !starts_with(t, '+') && !starts_with(t, '-') && !starts_with(t, '@'),
        forall|j: int| !pair_at(t, j, ' ', '+') && !pair_at(t, j, ' ', '-'),
        forall|j: int| !pair_at(x, j, ' ', '+'),
        forall|j: int| !pair_at(y, j, ' ', '+'),
        forall|i: int| 0 <= i < x.len() ==> x[i] != '-',
        forall|i: int| 0 <= i < y.len() ==> y[i] != '-',
        !ends_with(t + " -"@ + x, " left"@),
        !ends_with(t + " -"@ + x, " ago"@),
        !ends_with(t + " -"@ + y, " left"@),
        !ends_with(t + " -"@ + y, " ago"@),
    ensures
        timestamp_moments(t + " -"@ + x, offset, now, m) == timestamp_moments(
            t + " -"@ + y,
            offset,
            now,
            m,
        ),
{
    lemma_time_minus_span(t, x, offset, now, m);
    lemma_time_minus_span(t, y, offset, now, m);
}

/// Whitespace in a time span after a leading `+` counts for nothing.
pub proof fn lemma_now_span_whitespace(
    x: Seq<char>,
    y: Seq<char>,
    offset: int,
    now: int,
    m: spec_fn(int) -> Option<Moments>,
)
    requires
        strip_spaces(x) == strip_spaces(y),
    ensures
        timestamp_moments(seq!['+'] + x, offset, now, m) == timestamp_moments(
            seq!['+'] + y,
            offset,
            now,
            m,
        ),
{
    assert(seq!['+'] == Seq::<char>::empty().push('+'));
    lemma_strip_push(Seq::<char>::empty(), '+');
    assert(strip_spaces(Seq::<char>::empty()) =~= Seq::<char>::empty()) by {
        reveal(Seq::filter);
    }
    lemma_strip_concat(seq!['+'], x);
    lemma_strip_concat(seq!['+'], y);
    assert((seq!['+'] + x)[0] == '+');
    assert((seq!['+'] + y)[0] == '+');
}

/// `@` alone is the Unix epoch, as `epoch` is.
pub proof fn lemma_at_is_epoch(offset: int, now: int, m: spec_fn(int) -> Option<Moments>)
    ensures
        timestamp_moments("@"@, offset, now, m) == timestamp_moments("epoch"@, offset, now, m),
{
    reveal_strlit("@");
    reveal_strlit("epoch");
    reveal_strlit("now");
    reveal_strlit(" left");
    reveal_strlit(" ago");
    lemma_strip_none("@"@);
    lemma_strip_none("epoch"@);
    assert(strip_spaces("@"@).skip(1) =~= Seq::<char>::empty());
    let e = "epoch"@;
    assert(e.skip(0) != " left"@) by {
        assert(e.skip(0)[0] != " left"@[0]);
    }
    assert(e.skip(1) != " ago"@) by {
        assert(e.skip(1)[0] != " ago"@[0]);
    }
    lemma_pair_index(e, ' ', '+', e.len() - 1);
    lemma_pair_index(e, ' ', '-', e.len() - 1);
}

/// Two hours after today is today moved two hours later, held to the calendar.
pub proof fn lemma_today_plus_two_hours(
    offset: int,
    now: int,
    m: spec_fn(int) -> Option<Moments>,
)
    ensures
        timestamp_moments("today + 2h"@, offset, now, m) == held(
            match timestamp_reading("today"@, offset, now, m) {
                Err(f) => Err(f),
                Ok(b) => Ok(shift(b, 2 * USEC_PER_HOUR * 1000)),
            },
        ),
{
    reveal_strlit("today + 2h");
    reveal_strlit("today");
    reveal_strlit(" +");
    reveal_strlit(" left");
    reveal_strlit(" ago");
    let t = "today"@;
    let x = " 2h"@;
    reveal_strlit(" 2h");
    assert("today + 2h"@ =~= t + " +"@ + x);
    let ts = t + " +"@ + x;
    assert(ts.skip(5) != " left"@) by {
        assert(ts.skip(5)[1] != " left"@[1]);
    }
    assert(ts.skip(6) != " ago"@) by {
        assert(ts.skip(6)[0] != " ago"@[0]);
    }
    assert(t.skip(0) != " left"@) by {
        assert(t.skip(0)[0] != " left"@[0]);
    }
    assert(t.skip(1) != " ago"@) by {
        assert(t.skip(1)[0] != " ago"@[0]);
    }
    lemma_time_plus_span(t, x, offset, now, m);
    lemma_strip_none(t);
    lemma_pair_index(t, ' ', '+', t.len() - 1);
    lemma_pair_index(t, ' ', '-', t.len() - 1);
    let s = "2h"@;
    reveal_strlit("2h");
    assert(x == Seq::<char>::empty().push(' ') + s);
    lemma_strip_concat(Seq::<char>::empty().push(' '), s);
    lemma_strip_push(Seq::<char>::empty(), ' ');
    assert(strip_spaces(Seq::<char>::empty()) =~= Seq::<char>::empty()) by {
        reveal(Seq::filter);
    }
    lemma_strip_none(s);
    assert(strip_spaces(x) == s);
    lemma_hours_span();
}

/// `2h` is two hours.
proof fn lemma_hours_span()
    ensures
        offset_usecs("2h"@) == Ok::<int, Fault>(2 * USEC_PER_HOUR),
{
    reveal_strlit("2h");
    reveal_strlit("2");
    reveal_strlit("h");
    lemma_unit_hour();
    assert("2h"@ == "2"@ + "h"@);
    assert(all_letters("h"@));
    assert(all_digits("2"@));
    assert(decimal("2"@) == 2) by {
        assert("2"@.drop_last() =~= Seq::<char>::empty());
        reveal_with_fuel(decimal, 2);
    }
    assert(digits_value("2"@) == Some(2int));
    lemma_spelled_span("2"@, "h"@);
}

} // verus!
