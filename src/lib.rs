//! Parses timestamps in the style of systemd.time into points in time.
//!
//! A timestamp is a time, a time span, or a time and a span joined by a space
//! and a `+` or `-`:
//! * a time is `now`, `epoch`, `today`, `yesterday`, `tomorrow`, or one of
//!   `%y-%m-%d %H:%M:%S`, `%Y-%m-%d %H:%M:%S`, `%y-%m-%d %H:%M`,
//!   `%Y-%m-%d %H:%M`, `%y-%m-%d`, `%Y-%m-%d`, `%H:%M:%S`, `%H:%M`, tried in
//!   that order; a pattern with seconds may be followed by `.` and a number of
//!   microseconds. A missing date is today, a missing time midnight.
//! * a span is a sequence of `<number><unit>` components, whitespace ignored,
//!   all added together; every component needs its unit.
//! * a span alone is counted from now: `+span`, `span left`, `-span`,
//!   `span ago`; or from the Unix epoch: `@span`.
//!
//! Weekday prefixes and time zone suffixes are not read. Instants are counted
//! in nanoseconds since the Unix epoch; a civil time resolves in its zone to
//! one instant, to two when the zone's clocks repeat it (the earlier first),
//! or to an error when they skip it. A time or a result beyond chrono's
//! calendar is a number error. `parse_timestamp_tz` and `parse_timestamp_at`
//! serve UTC, this machine's zone and fixed offsets; `parse_timestamp_with`
//! serves any zone that can convert a civil time into instants.

pub mod chars;
pub mod error;
pub mod local_datetime;
pub mod offset;
pub mod time;
pub mod timestamp;
pub mod units;
pub mod zone;

pub use chars::partition_predicate;
pub use error::Error;
pub use local_datetime::{Instant, LocalDateTime, Mapped};
pub use timestamp::{parse_timestamp_at, parse_timestamp_tz, parse_timestamp_with};
pub use units::{
    USEC_PER_DAY, USEC_PER_HOUR, USEC_PER_MINUTE, USEC_PER_MONTH, USEC_PER_MSEC, USEC_PER_SEC,
    USEC_PER_USEC, USEC_PER_WEEK, USEC_PER_YEAR,
};
pub use zone::{ClockReading, Zone};
