use vstd::prelude::*;

use chrono::{NaiveDate, NaiveDateTime, NaiveTime, Timelike};

use crate::chars::{chars_of, same_text};
use crate::error::{reports, Error, Fault};
use crate::local_datetime::{in_order, outcome, Instant, LocalDateTime, Mapped, Moments};
use crate::offset::{digits_value, parse_digits};
use crate::zone::{
    day_start, fits_calendar, in_calendar, map_civil, moments_in_calendar, today_start, zone_maps, zone_offset, ClockReading, Zone,
    NANOS_PER_DAY, NANOS_PER_SEC, SPAN,
};

verus! {

/// What `NaiveDateTime::parse_from_str` makes of a text in a format: its day
/// counted from 1970-01-01, its second of that day, and its nanosecond.
pub uninterp spec fn naive_datetime_parse(text: Seq<char>, format: Seq<char>) -> Option<
    (i32, u32, u32),
>;

/// What `NaiveDate::parse_from_str` makes of a text in a format: its day
/// counted from 1970-01-01.
pub uninterp spec fn naive_date_parse(text: Seq<char>, format: Seq<char>) -> Option<i32>;

/// What `NaiveTime::parse_from_str` makes of a text in a format: its second
/// of the day and its nanosecond.
pub uninterp spec fn naive_time_parse(text: Seq<char>, format: Seq<char>) -> Option<(u32, u32)>;

/// Relies on `chrono::NaiveDateTime::parse_from_str`, whose result depends on
/// the text and the format alone.
#[verifier::external_body]
fn parse_datetime(text: &str, format: &str) -> (r: Option<(i32, u32, u32)>)
    ensures
        r == naive_datetime_parse(text@, format@),
{
    match NaiveDateTime::parse_from_str(text, format) {
        Ok(dt) => Some(
            (dt.date().to_epoch_days(), dt.time().num_seconds_from_midnight(), dt.time().nanosecond()),
        ),
        Err(_) => None,
    }
}

/// Relies on `chrono::NaiveDate::parse_from_str`, whose result depends on the
/// text and the format alone.
#[verifier::external_body]
fn parse_date(text: &str, format: &str) -> (r: Option<i32>)
    ensures
        r == naive_date_parse(text@, format@),
{
    match NaiveDate::parse_from_str(text, format) {
        Ok(d) => Some(d.to_epoch_days()),
        Err(_) => None,
    }
}

/// Relies on `chrono::NaiveTime::parse_from_str`, whose result depends on the
/// text and the format alone.
#[verifier::external_body]
fn parse_clock(text: &str, format: &str) -> (r: Option<(u32, u32)>)
    ensures
        r == naive_time_parse(text@, format@),
{
    match NaiveTime::parse_from_str(text, format) {
        Ok(t) => Some((t.num_seconds_from_midnight(), t.nanosecond())),
        Err(_) => None,
    }
}

/// A point in time named by the time part of a timestamp.
pub enum Base {
    Now,
    Epoch,
    /// A civil time in nanoseconds since 1970-01-01T00:00:00, counted from
    /// the start of the current day when the flag is set.
    Civil(bool, int),
}

/// The executable form of a `Base`.
#[derive(Clone, Copy, Debug, PartialEq, Eq, Structural)]
pub enum TimeForm {
    Now,
    Epoch,
    Civil { on_today: bool, nanos: i128 },
}

impl TimeForm {
    pub open spec fn base(self) -> Base {
        match self {
            TimeForm::Now => Base::Now,
            TimeForm::Epoch => Base::Epoch,
            TimeForm::Civil { on_today, nanos } => Base::Civil(on_today, nanos as int),
        }
    }
}

pub open spec fn datetime_nanos(d: (i32, u32, u32)) -> int {
    d.0 * NANOS_PER_DAY + d.1 * NANOS_PER_SEC + d.2
}

pub open spec fn clock_nanos(t: (u32, u32)) -> int {
    t.0 * NANOS_PER_SEC + t.1
}

pub open spec fn datetime_base(text: Seq<char>, format: Seq<char>) -> Option<Base> {
    match naive_datetime_parse(text, format) {
        Some(d) => Some(Base::Civil(false, datetime_nanos(d))),
        None => None,
    }
}

pub open spec fn date_base(text: Seq<char>, format: Seq<char>) -> Option<Base> {
    match naive_date_parse(text, format) {
        Some(d) => Some(Base::Civil(false, d * NANOS_PER_DAY)),
        None => None,
    }
}

pub open spec fn clock_base(text: Seq<char>, format: Seq<char>) -> Option<Base> {
    match naive_time_parse(text, format) {
        Some(t) => Some(Base::Civil(true, clock_nanos(t))),
        None => None,
    }
}

pub open spec fn or_else(a: Option<Base>, b: Option<Base>) -> Option<Base> {
    if a is Some {
        a
    } else {
        b
    }
}

/// The patterns with seconds, in the order they are tried, that may stand
/// before a `.` and its microseconds.
pub open spec fn seconds_base(t: Seq<char>) -> Option<Base> {
    or_else(
        datetime_base(t, "%y-%m-%d %H:%M:%S"@),
        or_else(datetime_base(t, "%Y-%m-%d %H:%M:%S"@), clock_base(t, "%H:%M:%S"@)),
    )
}

/// All the calendar and clock patterns, in the order they are tried.
pub open spec fn pattern_base(t: Seq<char>) -> Option<Base> {
    or_else(
        datetime_base(t, "%y-%m-%d %H:%M:%S"@),
        or_else(
            datetime_base(t, "%Y-%m-%d %H:%M:%S"@),
            or_else(
                datetime_base(t, "%y-%m-%d %H:%M"@),
                or_else(
                    datetime_base(t, "%Y-%m-%d %H:%M"@),
                    or_else(
                        date_base(t, "%y-%m-%d"@),
                        or_else(
                            date_base(t, "%Y-%m-%d"@),
                            or_else(clock_base(t, "%H:%M:%S"@), clock_base(t, "%H:%M"@)),
                        ),
                    ),
                ),
            ),
        ),
    )
}

/// The position of the first `c` in `s`.
pub open spec fn index_of(s: Seq<char>, c: char) -> Option<int>
    decreases s.len(),
{
    if s.len() == 0 {
        None
    } else if s[0] == c {
        Some(0)
    } else {
        match index_of(s.drop_first(), c) {
            Some(i) => Some(i + 1),
            None => None,
        }
    }
}

pub proof fn lemma_index_of(s: Seq<char>, c: char, k: int)
    requires
        0 <= k <= s.len(),
        forall|j: int| 0 <= j < k ==> s[j] != c,
        k < s.len() ==> s[k] == c,
    ensures
        index_of(s, c) == if k < s.len() {
            Some(k)
        } else {
            None::<int>
        },
    decreases k,
{
    if k > 0 {
        lemma_index_of(s.drop_first(), c, k - 1);
    }
}

/// The point in time that the time part `t` of a timestamp names: a keyword,
/// one of the patterns, or a pattern with seconds, a `.` and a whole number of
/// microseconds written in digits alone.
pub open spec fn time_base(t: Seq<char>) -> Result<Base, Fault> {
    if t == "now"@ {
        Ok(Base::Now)
    } else if t == "epoch"@ {
        Ok(Base::Epoch)
    } else if t == "today"@ {
        Ok(Base::Civil(true, 0))
    } else if t == "yesterday"@ {
        Ok(Base::Civil(true, -NANOS_PER_DAY))
    } else if t == "tomorrow"@ {
        Ok(Base::Civil(true, NANOS_PER_DAY as int))
    } else {
        match index_of(t, '.') {
            Some(p) => match seconds_base(t.take(p)) {
                None => Err(Fault::Format),
                Some(b) => match digits_value(t.skip(p + 1)) {
                    None => Err(Fault::Number),
                    Some(us) => match b {
                        Base::Civil(on_today, n) => Ok(Base::Civil(on_today, n + us * 1000)),
                        _ => Ok(b),
                    },
                },
            },
            None => match pattern_base(t) {
                None => Err(Fault::Format),
                Some(b) => Ok(b),
            },
        }
    }
}

/// What the point in time `b` is in a zone `offset` seconds east of UTC, at
/// the instant `now`, when `m` gives the instants of each civil time. A civil
/// time beyond chrono's calendar (one pushed there by its microseconds) is a
/// number error, as is an instant beyond it.
pub open spec fn base_moments(
    b: Base,
    offset: int,
    now: int,
    m: spec_fn(int) -> Option<Moments>,
) -> Result<Moments, Fault> {
    match b {
        Base::Now => Ok(Moments::Single(now)),
        Base::Epoch => Ok(Moments::Single(0)),
        Base::Civil(on_today, n) => {
            let c = if on_today {
                n + day_start(now, offset)
            } else {
                n
            };
            if !in_calendar(c) {
                Err(Fault::Number)
            } else {
                match m(c) {
                    None => Err(Fault::Never),
                    Some(x) => if moments_in_calendar(x) {
                        Ok(x)
                    } else {
                        Err(Fault::Number)
                    },
                }
            }
        },
    }
}

/// What the time part `t` of a timestamp stands for, as `base_moments` says.
pub open spec fn time_moments(
    t: Seq<char>,
    offset: int,
    now: int,
    m: spec_fn(int) -> Option<Moments>,
) -> Result<Moments, Fault> {
    match time_base(t) {
        Err(f) => Err(f),
        Ok(b) => base_moments(b, offset, now, m),
    }
}

pub open spec fn bounded_form(f: TimeForm) -> bool {
    f matches TimeForm::Civil { nanos, .. } ==> -SPAN <= nanos <= SPAN
}

fn datetime_form(text: &str, format: &str) -> (r: Option<TimeForm>)
    ensures
        r matches Some(f) ==> bounded_form(f) && datetime_base(text@, format@) == Some(f.base()),
        r is None ==> datetime_base(text@, format@) is None,
{
    match parse_datetime(text, format) {
        Some(d) => Some(
            TimeForm::Civil {
                on_today: false,
                nanos: d.0 as i128 * NANOS_PER_DAY + d.1 as i128 * NANOS_PER_SEC + d.2 as i128,
            },
        ),
        None => None,
    }
}

fn date_form(text: &str, format: &str) -> (r: Option<TimeForm>)
    ensures
        r matches Some(f) ==> bounded_form(f) && date_base(text@, format@) == Some(f.base()),
        r is None ==> date_base(text@, format@) is None,
{
    match parse_date(text, format) {
        Some(d) => Some(TimeForm::Civil { on_today: false, nanos: d as i128 * NANOS_PER_DAY }),
        None => None,
    }
}

fn clock_form(text: &str, format: &str) -> (r: Option<TimeForm>)
    ensures
        r matches Some(f) ==> bounded_form(f) && clock_base(text@, format@) == Some(f.base()),
        r is None ==> clock_base(text@, format@) is None,
{
    match parse_clock(text, format) {
        Some(t) => Some(
            TimeForm::Civil { on_today: true, nanos: t.0 as i128 * NANOS_PER_SEC + t.1 as i128 },
        ),
        None => None,
    }
}

/// Tries the patterns with seconds, in order.
fn seconds_form(t: &str) -> (r: Option<TimeForm>)
    ensures
        r matches Some(f) ==> bounded_form(f) && seconds_base(t@) == Some(f.base()),
        r is None ==> seconds_base(t@) is None,
{
    let f = datetime_form(t, "%y-%m-%d %H:%M:%S");
    if f.is_some() {
        return f;
    }
    let f = datetime_form(t, "%Y-%m-%d %H:%M:%S");
    if f.is_some() {
        return f;
    }
    clock_form(t, "%H:%M:%S")
}

/// Tries every calendar and clock pattern, in order.
fn pattern_form(t: &str) -> (r: Option<TimeForm>)
    ensures
        r matches Some(f) ==> bounded_form(f) && pattern_base(t@) == Some(f.base()),
        r is None ==> pattern_base(t@) is None,
{
    let f = datetime_form(t, "%y-%m-%d %H:%M:%S");
    if f.is_some() {
        return f;
    }
    let f = datetime_form(t, "%Y-%m-%d %H:%M:%S");
    if f.is_some() {
        return f;
    }
    let f = datetime_form(t, "%y-%m-%d %H:%M");
    if f.is_some() {
        return f;
    }
    let f = datetime_form(t, "%Y-%m-%d %H:%M");
    if f.is_some() {
        return f;
    }
    let f = date_form(t, "%y-%m-%d");
    if f.is_some() {
        return f;
    }
    let f = date_form(t, "%Y-%m-%d");
    if f.is_some() {
        return f;
    }
    let f = clock_form(t, "%H:%M:%S");
    if f.is_some() {
        return f;
    }
    clock_form(t, "%H:%M")
}

/// Reads the time part `ts` of a timestamp, whitespace intact, into the point
/// in time it names.
pub fn parse_time_form(ts: &str) -> (r: Result<TimeForm, Error>)
    ensures
        match time_base(ts@) {
            Ok(b) => r matches Ok(f) && f.base() == b && bounded_form(f),
            Err(fault) => reports(r, fault),
        },
{
    if same_text(ts, "now") {
        return Ok(TimeForm::Now);
    }
    if same_text(ts, "epoch") {
        return Ok(TimeForm::Epoch);
    }
    if same_text(ts, "today") {
        return Ok(TimeForm::Civil { on_today: true, nanos: 0 });
    }
    if same_text(ts, "yesterday") {
        return Ok(TimeForm::Civil { on_today: true, nanos: -NANOS_PER_DAY });
    }
    if same_text(ts, "tomorrow") {
        return Ok(TimeForm::Civil { on_today: true, nanos: NANOS_PER_DAY });
    }
    // an optional '.' separates the seconds and microseconds components
    let cs = chars_of(ts);
    let mut p: usize = 0;
    while p < cs.len() && cs[p] != '.'
        invariant
            cs@ == ts@,
            p <= cs.len(),
            forall|j: int| 0 <= j < p ==> cs@[j] != '.',
        decreases cs.len() - p,
    {
        p = p + 1;
    }
    proof {
        lemma_index_of(ts@, '.', p as int);
    }
    if p == cs.len() {
        return match pattern_form(ts) {
            Some(f) => Ok(f),
            None => Err(
                Error::Format(
                    String::from_str("Cannot parse `").concat(ts).concat("` into a time"),
                ),
            ),
        };
    }
    let ts_t = ts.substring_char(0, p);
    let form = match seconds_form(ts_t) {
        Some(f) => f,
        None => {
            return Err(
                Error::Format(
                    String::from_str("Cannot parse `").concat(ts_t).concat(
                        "` before '.' into a time",
                    ),
                ),
            );
        },
    };
    let ts_u = ts.substring_char(p + 1, cs.len());
    let usecs = match parse_digits(ts_u) {
        Some(u) => u,
        None => {
            return Err(
                Error::Number(
                    String::from_str("Cannot parse `").concat(ts_u).concat(
                        "` after '.' into a number",
                    ),
                ),
            );
        },
    };
    match form {
        TimeForm::Civil { on_today, nanos } => Ok(
            TimeForm::Civil { on_today, nanos: nanos + usecs as i128 * 1000 },
        ),
        _ => Ok(form),
    }
}

/// The instants in `zone` of the point in time `form`, with the clock at
/// `clock`.
pub fn resolve_form(form: TimeForm, zone: Zone, clock: ClockReading) -> (r: Result<
    LocalDateTime,
    Error,
>)
    requires
        bounded_form(form),
        -SPAN <= clock.now.nanos <= SPAN,
    ensures
        exists|m: spec_fn(int) -> Option<Moments>|
            zone_maps(zone, m) && outcome(r) == base_moments(
                form.base(),
                zone_offset(zone, clock),
                clock.now.nanos as int,
                m,
            ),
        r matches Ok(v) ==> -8 * SPAN <= v.earliest_nanos() <= 8 * SPAN && -8 * SPAN
            <= v.latest_nanos() <= 8 * SPAN,
{
    let offset: i32 = match zone {
        Zone::Utc => 0,
        Zone::Local => clock.local_offset,
        Zone::Fixed(east) => east,
    };
    let ghost rule = |c: int|
        match zone {
            Zone::Utc => Some(Moments::Single(c)),
            Zone::Fixed(east) => Some(Moments::Single(c - east * NANOS_PER_SEC)),
            Zone::Local => None::<Moments>,
        };
    match form {
        TimeForm::Now => {
            assert(zone_maps(zone, rule));
            Ok(LocalDateTime::Single(clock.now))
        },
        TimeForm::Epoch => {
            assert(zone_maps(zone, rule));
            Ok(LocalDateTime::Single(Instant { nanos: 0 }))
        },
        TimeForm::Civil { on_today, nanos } => {
            let civil = if on_today {
                nanos + today_start(clock.now, offset)
            } else {
                nanos
            };
            if !fits_calendar(civil) {
                assert(zone_maps(zone, rule));
                return Err(Error::Number(String::from_str("Time lies beyond the calendar")));
            }
            let mapped = map_civil(zone, civil);
            let ghost point = |c: int|
                if c == civil {
                    mapped.moments()
                } else {
                    rule(c)
                };
            assert(zone_maps(zone, point));
            assert(point(civil as int) == mapped.moments());
            if !mapping_fits(&mapped) {
                assert(base_moments(
                    form.base(),
                    zone_offset(zone, clock),
                    clock.now.nanos as int,
                    point,
                ) == Err::<Moments, Fault>(Fault::Number));
                return Err(Error::Number(String::from_str("Time lies beyond the calendar")));
            }
            LocalDateTime::from_mapping(mapped)
        },
    }
}

/// Whether every instant of `mapped` lies in chrono's calendar.
fn mapping_fits(mapped: &Mapped<Instant>) -> (r: bool)
    ensures
        mapped.moments() matches Some(x) ==> r == moments_in_calendar(x),
        mapped is Missing ==> r,
{
    match mapped {
        Mapped::Missing => true,
        Mapped::Single(a) => fits_calendar(a.nanos),
        Mapped::Ambiguous(a, b) => fits_calendar(a.nanos) && fits_calendar(b.nanos),
    }
}

/// `m` gives, for each civil time, either nothing or what `resolve` may
/// return for it, the earlier of two instants first.
pub open spec fn follows<F: Fn(i128) -> Mapped<Instant>>(
    resolve: F,
    m: spec_fn(int) -> Option<Moments>,
) -> bool {
    forall|c: int|
        #![trigger m(c)]
        m(c) is None || exists|v: Mapped<Instant>|
            resolve.ensures((c as i128,), v) && m(c) == in_order(v.moments())
}

/// The instants of the point in time `form` in a zone `offset` seconds east
/// of UTC at the instant `now`, where `resolve` gives the instants of a civil
/// time.
pub fn resolve_form_with<F: Fn(i128) -> Mapped<Instant>>(
    form: TimeForm,
    offset: i32,
    now: Instant,
    resolve: F,
) -> (r: Result<LocalDateTime, Error>)
    requires
        bounded_form(form),
        -SPAN <= now.nanos <= SPAN,
        forall|c: i128| resolve.requires((c,)),
    ensures
        exists|m: spec_fn(int) -> Option<Moments>|
            follows(resolve, m) && outcome(r) == base_moments(
                form.base(),
                offset as int,
                now.nanos as int,
                m,
            ),
        r matches Ok(v) ==> -8 * SPAN <= v.earliest_nanos() <= 8 * SPAN && -8 * SPAN
            <= v.latest_nanos() <= 8 * SPAN,
{
    let ghost none = |c: int| None::<Moments>;
    assert(follows(resolve, none));
    match form {
        TimeForm::Now => Ok(LocalDateTime::Single(now)),
        TimeForm::Epoch => Ok(LocalDateTime::Single(Instant { nanos: 0 })),
        TimeForm::Civil { on_today, nanos } => {
            let civil = if on_today {
                nanos + today_start(now, offset)
            } else {
                nanos
            };
            if !fits_calendar(civil) {
                return Err(Error::Number(String::from_str("Time lies beyond the calendar")));
            }
            let given = resolve(civil);
            let mapped = given.ordered();
            let ghost point = |c: int|
                if c == civil {
                    mapped.moments()
                } else {
                    None::<Moments>
                };
            assert(point(civil as int) == mapped.moments());
            assert(follows(resolve, point));
            if !mapping_fits(&mapped) {
                assert(base_moments(form.base(), offset as int, now.nanos as int, point)
                    == Err::<Moments, Fault>(Fault::Number));
                return Err(Error::Number(String::from_str("Time lies beyond the calendar")));
            }
            proof {
                if let Some(x) = mapped.moments() {
                    lemma_calendar_bounded(x);
                }
            }
            LocalDateTime::from_mapping(mapped)
        },
    }
}

/// Instants in chrono's calendar are far within the bound of a timestamp.
proof fn lemma_calendar_bounded(x: Moments)
    requires
        moments_in_calendar(x),
    ensures
        match x {
            Moments::Single(a) => -SPAN <= a <= SPAN,
            Moments::Ambiguous(a, b) => -SPAN <= a <= SPAN && -SPAN <= b <= SPAN,
        },
{
    assert forall|n: int| #[trigger] in_calendar(n) implies -SPAN <= n <= SPAN by {
        let s = n / (NANOS_PER_SEC as int);
        vstd::arithmetic::div_mod::lemma_fundamental_div_mod(n, NANOS_PER_SEC as int);
        assert(0 <= n % (NANOS_PER_SEC as int) < NANOS_PER_SEC);
        assert(n == s * NANOS_PER_SEC + n % (NANOS_PER_SEC as int));
        assert(-SPAN <= s * NANOS_PER_SEC + n % (NANOS_PER_SEC as int) <= SPAN) by (nonlinear_arith)
            requires
                i64::MIN <= s <= i64::MAX,
                0 <= n % (NANOS_PER_SEC as int) < NANOS_PER_SEC,
        ;
    }
}

/// Parses a point in time into its instants in a zone `offset` seconds east
/// of UTC at the instant `now`, where `resolve` gives the instants of a civil
/// time.
pub fn parse_time_with<F: Fn(i128) -> Mapped<Instant>>(
    ts: &str,
    offset: i32,
    now: Instant,
    resolve: F,
) -> (r: Result<LocalDateTime, Error>)
    requires
        -SPAN <= now.nanos <= SPAN,
        forall|c: i128| resolve.requires((c,)),
    ensures
        exists|m: spec_fn(int) -> Option<Moments>|
            follows(resolve, m) && outcome(r) == time_moments(ts@, offset as int, now.nanos as int, m),
        r matches Ok(v) ==> -8 * SPAN <= v.earliest_nanos() <= 8 * SPAN && -8 * SPAN
            <= v.latest_nanos() <= 8 * SPAN,
{
    match parse_time_form(ts) {
        Ok(form) => resolve_form_with(form, offset, now, resolve),
        Err(e) => {
            let ghost none = |c: int| None::<Moments>;
            assert(follows(resolve, none));
            Err(e)
        },
    }
}

/// Parses a point in time into its instants in `zone`, with the clock at
/// `clock`.
///
/// * `ts` - a str of a time with whitespace intact.
pub fn parse_time(ts: &str, zone: Zone, clock: ClockReading) -> (r: Result<LocalDateTime, Error>)
    requires
        -SPAN <= clock.now.nanos <= SPAN,
    ensures
        exists|m: spec_fn(int) -> Option<Moments>|
            zone_maps(zone, m) && outcome(r) == time_moments(
                ts@,
                zone_offset(zone, clock),
                clock.now.nanos as int,
                m,
            ),
        r matches Ok(v) ==> -8 * SPAN <= v.earliest_nanos() <= 8 * SPAN && -8 * SPAN
            <= v.latest_nanos() <= 8 * SPAN,
{
    match parse_time_form(ts) {
        Ok(form) => resolve_form(form, zone, clock),
        Err(e) => {
            let ghost rule = |c: int|
                match zone {
                    Zone::Utc => Some(Moments::Single(c)),
                    Zone::Fixed(east) => Some(Moments::Single(c - east * NANOS_PER_SEC)),
                    Zone::Local => None::<Moments>,
                };
            assert(zone_maps(zone, rule));
            Err(e)
        },
    }
}

} // verus!
