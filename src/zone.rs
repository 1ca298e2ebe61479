use vstd::prelude::*;

use chrono::{DateTime, Local, LocalResult, TimeZone};

use crate::local_datetime::{Instant, Mapped, Moments};

verus! {

pub const NANOS_PER_SEC: i128 = 1_000_000_000;
pub const NANOS_PER_DAY: i128 = 86_400 * NANOS_PER_SEC;

/// A bound, far beyond any calendar, on the instants and civil times in
/// nanoseconds that a timestamp leads to.
pub const SPAN: i128 = 1_000_000_000_000_000_000_000_000_000_000;

/// The time zone that civil dates and times are read in.
#[derive(Clone, Copy, Debug, PartialEq, Eq, Structural)]
pub enum Zone {
    /// Coordinated Universal Time.
    Utc,
    /// The zone that this machine's clock is set to.
    Local,
    /// A zone that is always the given number of seconds east of UTC, which
    /// lies strictly within a day.
    Fixed(i32),
}

impl Zone {
    /// A fixed offset from UTC lies strictly within a day.
    pub open spec fn valid(self) -> bool {
        self matches Zone::Fixed(east) ==> -86_400 < east < 86_400
    }

    /// The zone `east` seconds east of UTC, when that lies strictly within a day.
    pub fn fixed_east(east: i32) -> (r: Option<Zone>)
        ensures
            -86_400 < east < 86_400 ==> r == Some(Zone::Fixed(east)),
            !(-86_400 < east < 86_400) ==> r is None,
    {
        if -86_400 < east && east < 86_400 {
            Some(Zone::Fixed(east))
        } else {
            None
        }
    }
}

/// What the clock said when a timestamp was read: the current instant, and
/// the offset from UTC, in seconds, of this machine's zone at that instant.
#[derive(Clone, Copy, Debug, PartialEq, Eq, Structural)]
pub struct ClockReading {
    pub now: Instant,
    pub local_offset: i32,
}

/// The offset from UTC, in seconds, of `zone` at the instant of `clock`.
pub open spec fn zone_offset(zone: Zone, clock: ClockReading) -> int {
    match zone {
        Zone::Utc => 0,
        Zone::Local => clock.local_offset as int,
        Zone::Fixed(east) => east as int,
    }
}

/// `m` gives for each civil time, in nanoseconds since 1970-01-01T00:00:00 on
/// the zone's own clock, its instants in `zone`: exactly one in UTC and in a
/// fixed zone; in this machine's zone none, one or two (the earlier first),
/// each less than a day away from the civil time and keeping its fraction of
/// a second.
pub open spec fn zone_maps(zone: Zone, m: spec_fn(int) -> Option<Moments>) -> bool {
    match zone {
        Zone::Utc => forall|c: int| #[trigger] m(c) == Some(Moments::Single(c)),
        Zone::Fixed(east) => forall|c: int| #[trigger]
            m(c) == Some(Moments::Single(c - east * NANOS_PER_SEC)),
        Zone::Local => forall|c: int| near_day(c, #[trigger] m(c)),
    }
}

pub open spec fn near(c: int, t: int) -> bool {
    c - NANOS_PER_DAY < t < c + NANOS_PER_DAY && (t - c) % (NANOS_PER_SEC as int) == 0
}

pub open spec fn near_day(c: int, o: Option<Moments>) -> bool {
    match o {
        None => true,
        Some(Moments::Single(a)) => near(c, a),
        Some(Moments::Ambiguous(a, b)) => near(c, a) && near(c, b) && a <= b,
    }
}

/// The first instant of the civil day that holds the instant `now` in a zone
/// `offset` seconds east of UTC, as a civil time in nanoseconds.
pub open spec fn day_start(now: int, offset: int) -> int {
    ((now + offset * NANOS_PER_SEC) / (NANOS_PER_DAY as int)) * NANOS_PER_DAY
}

/// Relies on `chrono::Local::now`: the current instant as seconds and
/// nanoseconds since the Unix epoch, and the offset from UTC of this
/// machine's zone then, which as a `FixedOffset` lies strictly within a day.
#[verifier::external_body]
fn local_now() -> (r: (i64, u32, i32))
    ensures
        -86_400 < r.2 < 86_400,
{
    let t = Local::now();
    (t.timestamp(), t.timestamp_subsec_nanos(), t.offset().local_minus_utc())
}

/// Relies on `chrono::Local::from_local_datetime`, applied to the civil time
/// `secs` seconds and `nanos` nanoseconds after 1970-01-01T00:00:00: each
/// instant it gives is that civil time less an offset strictly within a day,
/// which keeps the nanoseconds. Of two instants, either may come first.
/// A civil time that `DateTime::from_timestamp` cannot hold has no instant.
#[verifier::external_body]
fn local_mapping(secs: i64, nanos: u32) -> (r: Mapped<(i64, u32)>)
    requires
        nanos < 1_000_000_000,
    ensures
        r matches Mapped::Single(a) ==> a.1 == nanos && secs - 86_400 < a.0 < secs + 86_400,
        r matches Mapped::Ambiguous(a, b) ==> a.1 == nanos && secs - 86_400 < a.0 < secs
            + 86_400 && b.1 == nanos && secs - 86_400 < b.0 < secs + 86_400,
{
    let civil = match DateTime::from_timestamp(secs, nanos) {
        Some(t) => t.naive_utc(),
        None => return Mapped::Missing,
    };
    match Local.from_local_datetime(&civil) {
        LocalResult::None => Mapped::Missing,
        LocalResult::Single(a) => Mapped::Single((a.timestamp(), a.timestamp_subsec_nanos())),
        LocalResult::Ambiguous(a, b) => Mapped::Ambiguous(
            (a.timestamp(), a.timestamp_subsec_nanos()),
            (b.timestamp(), b.timestamp_subsec_nanos()),
        ),
    }
}

proof fn lemma_whole_seconds(secs: int, nanos: int)
    ensures
        forall|s2: int|
            #![trigger s2 * NANOS_PER_SEC]
            ((s2 * NANOS_PER_SEC + nanos) - (secs * NANOS_PER_SEC + nanos)) % (NANOS_PER_SEC as int)
                == 0,
{
    assert forall|s2: int|
        #![trigger s2 * NANOS_PER_SEC]
        ((s2 * NANOS_PER_SEC + nanos) - (secs * NANOS_PER_SEC + nanos)) % (NANOS_PER_SEC as int)
            == 0 by {
        assert(((s2 - secs) * 1_000_000_000) % 1_000_000_000 == 0) by (nonlinear_arith);
        assert((s2 * NANOS_PER_SEC + nanos) - (secs * NANOS_PER_SEC + nanos) == (s2 - secs)
            * 1_000_000_000) by (nonlinear_arith);
    }
}

/// Whether chrono's calendar holds the point `secs` seconds and `nanos`
/// nanoseconds after 1970-01-01T00:00:00.
pub uninterp spec fn calendar_holds(secs: int, nanos: int) -> bool;

/// Relies on `chrono::DateTime::from_timestamp`, which gives a date-time
/// exactly when chrono's calendar holds the point; that depends on the
/// arguments alone.
#[verifier::external_body]
fn timestamp_fits(secs: i64, nanos: u32) -> (r: bool)
    ensures
        r == calendar_holds(secs as int, nanos as int),
{
    DateTime::from_timestamp(secs, nanos).is_some()
}

/// Whether chrono's calendar holds the point `n` nanoseconds after
/// 1970-01-01T00:00:00, read as an instant or as a civil time.
pub open spec fn in_calendar(n: int) -> bool {
    let secs = n / (NANOS_PER_SEC as int);
    i64::MIN <= secs <= i64::MAX && calendar_holds(secs, n % (NANOS_PER_SEC as int))
}

/// Every instant of `m` lies in chrono's calendar.
pub open spec fn moments_in_calendar(m: Moments) -> bool {
    match m {
        Moments::Single(a) => in_calendar(a),
        Moments::Ambiguous(a, b) => in_calendar(a) && in_calendar(b),
    }
}

/// Whether chrono's calendar holds the point `n` nanoseconds after
/// 1970-01-01T00:00:00.
pub fn fits_calendar(n: i128) -> (r: bool)
    ensures
        r == in_calendar(n as int),
{
    let secs = floor_div(n, NANOS_PER_SEC);
    proof {
        vstd::arithmetic::div_mod::lemma_fundamental_div_mod(n as int, NANOS_PER_SEC as int);
        assert(secs * NANOS_PER_SEC <= n < secs * NANOS_PER_SEC + NANOS_PER_SEC) by (nonlinear_arith)
            requires
                secs == (n as int) / (NANOS_PER_SEC as int),
                NANOS_PER_SEC > 0,
        ;
    }
    if secs < i64::MIN as i128 || secs > i64::MAX as i128 {
        return false;
    }
    let nanos = n - secs * NANOS_PER_SEC;
    timestamp_fits(secs as i64, nanos as u32)
}

/// Reads the clock.
pub fn read_clock() -> (r: ClockReading)
    ensures
        -86_400 < r.local_offset < 86_400,
        -SPAN <= r.now.nanos <= SPAN,
{
    let (secs, nanos, offset) = local_now();
    ClockReading { now: Instant { nanos: secs as i128 * NANOS_PER_SEC + nanos as i128 }, local_offset: offset }
}

/// `x` divided by `d`, rounded down.
pub fn floor_div(x: i128, d: i128) -> (q: i128)
    requires
        d > 0,
    ensures
        q == x / d,
{
    if x >= 0 {
        x / d
    } else {
        let y = -(x + 1);
        let p = y / d;
        proof {
            assert(p * d <= y < p * d + d) by (nonlinear_arith)
                requires
                    p == y / d,
                    y >= 0,
                    d > 0,
            ;
            assert((-p - 1) * d <= x < (-p - 1) * d + d) by (nonlinear_arith)
                requires
                    p * d <= y < p * d + d,
                    y == -(x + 1),
            ;
            assert(x / d == -p - 1) by (nonlinear_arith)
                requires
                    (-p - 1) * d <= x < (-p - 1) * d + d,
                    d > 0,
            ;
        }
        -p - 1
    }
}

/// The first instant of the civil day that holds `now` in a zone `offset`
/// seconds east of UTC.
pub fn today_start(now: Instant, offset: i32) -> (r: i128)
    requires
        -SPAN <= now.nanos <= SPAN,
    ensures
        r == day_start(now.nanos as int, offset as int),
        -2 * SPAN <= r <= 2 * SPAN,
{
    let days = floor_div(now.nanos + offset as i128 * NANOS_PER_SEC, NANOS_PER_DAY);
    proof {
        let x = now.nanos + offset * NANOS_PER_SEC;
        assert(days * NANOS_PER_DAY <= x < days * NANOS_PER_DAY + NANOS_PER_DAY) by (nonlinear_arith)
            requires
                days == (x as int) / (NANOS_PER_DAY as int),
                NANOS_PER_DAY > 0,
        ;
    }
    days * NANOS_PER_DAY
}

/// The instants of the civil time `civil`, in nanoseconds since
/// 1970-01-01T00:00:00 on the zone's clock, in `zone`.
pub fn map_civil(zone: Zone, civil: i128) -> (r: Mapped<Instant>)
    requires
        -4 * SPAN <= civil <= 4 * SPAN,
    ensures
        zone is Utc ==> r.moments() == Some(Moments::Single(civil as int)),
        zone matches Zone::Fixed(east) ==> r.moments() == Some(
            Moments::Single(civil - east * NANOS_PER_SEC),
        ),
        zone is Local ==> near_day(civil as int, r.moments()),
        zone is Local && !(i64::MIN <= civil as int / (NANOS_PER_SEC as int) <= i64::MAX) ==> r is Missing,
{
    match zone {
        Zone::Utc => Mapped::Single(Instant { nanos: civil }),
        Zone::Fixed(east) => Mapped::Single(Instant { nanos: civil - east as i128 * NANOS_PER_SEC }),
        Zone::Local => {
            let secs = floor_div(civil, NANOS_PER_SEC);
            proof {
                assert(secs * NANOS_PER_SEC <= civil < secs * NANOS_PER_SEC + NANOS_PER_SEC) by (nonlinear_arith)
                    requires
                        secs == (civil as int) / (NANOS_PER_SEC as int),
                        NANOS_PER_SEC > 0,
                ;
            }
            let nanos = civil - secs * NANOS_PER_SEC;
            if secs < i64::MIN as i128 || secs > i64::MAX as i128 {
                return Mapped::Missing;
            }
            let mapped = local_mapping(secs as i64, nanos as u32);
            proof {
                lemma_whole_seconds(secs as int, nanos as int);
            }
            match mapped {
                Mapped::Missing => Mapped::Missing,
                Mapped::Single(a) => Mapped::Single(
                    Instant { nanos: a.0 as i128 * NANOS_PER_SEC + a.1 as i128 },
                ),
                Mapped::Ambiguous(a, b) => {
                    let x = Instant { nanos: a.0 as i128 * NANOS_PER_SEC + a.1 as i128 };
                    let y = Instant { nanos: b.0 as i128 * NANOS_PER_SEC + b.1 as i128 };
                    // the earlier reading goes first, whichever order the zone gave
                    if x.nanos <= y.nanos {
                        Mapped::Ambiguous(x, y)
                    } else {
                        Mapped::Ambiguous(y, x)
                    }
                },
            }
        },
    }
}

} // verus!
