use vstd::prelude::*;

use crate::error::{Error, Fault};

verus! {

pub const NANOS_PER_MICRO: i128 = 1_000;

/// A point on the universal timeline: nanoseconds since 1970-01-01T00:00:00Z.
#[derive(Clone, Copy, Debug, PartialEq, Eq, Structural)]
pub struct Instant {
    pub nanos: i128,
}

/// The instants a result stands for, as plain numbers of nanoseconds.
pub enum Moments {
    Single(int),
    Ambiguous(int, int),
}

/// `m` moved by `d` nanoseconds, each reading on its own.
pub open spec fn shift(m: Moments, d: int) -> Moments {
    match m {
        Moments::Single(a) => Moments::Single(a + d),
        Moments::Ambiguous(a, b) => Moments::Ambiguous(a + d, b + d),
    }
}

pub open spec fn fits_i128(v: int) -> bool {
    i128::MIN <= v <= i128::MAX
}

/// The outcome of converting a civil date and time into instants of a zone:
/// none, when the zone's clocks skip it; one; or two, when they repeat it.
pub enum Mapped<T> {
    Missing,
    Single(T),
    Ambiguous(T, T),
}

impl Mapped<Instant> {
    pub open spec fn moments(self) -> Option<Moments> {
        match self {
            Mapped::Missing => None,
            Mapped::Single(a) => Some(Moments::Single(a.nanos as int)),
            Mapped::Ambiguous(a, b) => Some(Moments::Ambiguous(a.nanos as int, b.nanos as int)),
        }
    }
}

/// `o` with the earlier of two instants first.
pub open spec fn in_order(o: Option<Moments>) -> Option<Moments> {
    match o {
        Some(Moments::Ambiguous(a, b)) => if a <= b {
            o
        } else {
            Some(Moments::Ambiguous(b, a))
        },
        _ => o,
    }
}

impl Mapped<Instant> {
    /// The same mapping with the earlier of two instants first.
    pub fn ordered(self) -> (r: Mapped<Instant>)
        ensures
            r.moments() == in_order(self.moments()),
    {
        match self {
            Mapped::Ambiguous(a, b) => if a.nanos <= b.nanos {
                Mapped::Ambiguous(a, b)
            } else {
                Mapped::Ambiguous(b, a)
            },
            _ => self,
        }
    }
}

/// The conversion time of a civil date and time that exists in its zone.
#[derive(Clone, Copy, Debug, PartialEq, Eq, Structural)]
pub enum LocalDateTime {
    Single(Instant),
    Ambiguous(Instant, Instant),
}

impl LocalDateTime {
    pub open spec fn moments(self) -> Moments {
        match self {
            LocalDateTime::Single(a) => Moments::Single(a.nanos as int),
            LocalDateTime::Ambiguous(a, b) => Moments::Ambiguous(a.nanos as int, b.nanos as int),
        }
    }

    /// Returns `Some` when the conversion time is unique, or `None` otherwise.
    pub fn single(self) -> (r: Option<Instant>)
        ensures
            self matches LocalDateTime::Single(a) ==> r == Some(a),
            self is Ambiguous ==> r is None,
    {
        match self {
            LocalDateTime::Single(dt) => Some(dt),
            _ => None,
        }
    }

    /// Returns the earliest possible conversion time.
    pub fn earliest(self) -> (r: Instant)
        ensures
            self matches LocalDateTime::Single(a) ==> r == a,
            self matches LocalDateTime::Ambiguous(a, _) ==> r == a,
    {
        match self {
            LocalDateTime::Single(dt) | LocalDateTime::Ambiguous(dt, _) => dt,
        }
    }

    /// Returns the latest possible conversion time.
    pub fn latest(self) -> (r: Instant)
        ensures
            self matches LocalDateTime::Single(a) ==> r == a,
            self matches LocalDateTime::Ambiguous(_, b) ==> r == b,
    {
        match self {
            LocalDateTime::Single(dt) | LocalDateTime::Ambiguous(_, dt) => dt,
        }
    }

    /// Moves every reading later by `usecs` microseconds.
    pub fn plus_micros(self, usecs: i64) -> (r: LocalDateTime)
        requires
            fits_i128(self.earliest_nanos() + usecs * 1000),
            fits_i128(self.latest_nanos() + usecs * 1000),
        ensures
            r.moments() == shift(self.moments(), usecs * 1000),
    {
        let d = usecs as i128 * NANOS_PER_MICRO;
        match self {
            LocalDateTime::Single(a) => LocalDateTime::Single(Instant { nanos: a.nanos + d }),
            LocalDateTime::Ambiguous(a, b) => LocalDateTime::Ambiguous(
                Instant { nanos: a.nanos + d },
                Instant { nanos: b.nanos + d },
            ),
        }
    }

    /// Moves every reading earlier by `usecs` microseconds.
    pub fn minus_micros(self, usecs: i64) -> (r: LocalDateTime)
        requires
            fits_i128(self.earliest_nanos() - usecs * 1000),
            fits_i128(self.latest_nanos() - usecs * 1000),
        ensures
            r.moments() == shift(self.moments(), -(usecs * 1000)),
    {
        let d = usecs as i128 * NANOS_PER_MICRO;
        match self {
            LocalDateTime::Single(a) => LocalDateTime::Single(Instant { nanos: a.nanos - d }),
            LocalDateTime::Ambiguous(a, b) => LocalDateTime::Ambiguous(
                Instant { nanos: a.nanos - d },
                Instant { nanos: b.nanos - d },
            ),
        }
    }

    pub open spec fn earliest_nanos(self) -> int {
        match self {
            LocalDateTime::Single(a) | LocalDateTime::Ambiguous(a, _) => a.nanos as int,
        }
    }

    pub open spec fn latest_nanos(self) -> int {
        match self {
            LocalDateTime::Single(a) | LocalDateTime::Ambiguous(_, a) => a.nanos as int,
        }
    }

    /// The conversion time of a mapping that exists; a civil time that its
    /// zone skips is an error.
    pub fn from_mapping(res: Mapped<Instant>) -> (r: Result<LocalDateTime, Error>)
        ensures
            match res.moments() {
                None => r matches Err(Error::Never),
                Some(m) => r matches Ok(v) && v.moments() == m,
            },
    {
        match res {
            Mapped::Missing => Err(Error::Never),
            Mapped::Single(dt) => Ok(LocalDateTime::Single(dt)),
            Mapped::Ambiguous(dt1, dt2) => Ok(LocalDateTime::Ambiguous(dt1, dt2)),
        }
    }
}

/// What a parse came to, as plain numbers.
pub open spec fn outcome(r: Result<LocalDateTime, Error>) -> Result<Moments, Fault> {
    match r {
        Ok(v) => Ok(v.moments()),
        Err(e) => Err(e.fault()),
    }
}

} // verus!
