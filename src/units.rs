use vstd::prelude::*;

use crate::chars::same_text;

verus! {

/*
 * Offsets are counted in microseconds, in an i64.
 */

pub const USEC_PER_USEC: i64 = 1;
pub const USEC_PER_MSEC: i64 = 1_000 * USEC_PER_USEC;
pub const USEC_PER_SEC: i64 = 1_000 * USEC_PER_MSEC;
pub const USEC_PER_MINUTE: i64 = 60 * USEC_PER_SEC;
pub const USEC_PER_HOUR: i64 = 60 * USEC_PER_MINUTE;
pub const USEC_PER_DAY: i64 = 24 * USEC_PER_HOUR;
pub const USEC_PER_WEEK: i64 = 7 * USEC_PER_DAY;
pub const USEC_PER_MONTH: i64 = 2_629_800 * USEC_PER_SEC;
pub const USEC_PER_YEAR: i64 = 31_557_600 * USEC_PER_SEC;

/// The length in microseconds of the time unit spelled `u`, if `u` spells one.
/// Spellings are case-sensitive: `m` is a minute, `M` a month.
pub open spec fn unit_usecs(u: Seq<char>) -> Option<int> {
    if u == "us"@ || u == "usec"@ || u == "\u{b5}s"@ {
        Some(USEC_PER_USEC as int)
    } else if u == "ms"@ || u == "msec"@ {
        Some(USEC_PER_MSEC as int)
    } else if u == "s"@ || u == "sec"@ || u == "second"@ || u == "seconds"@ {
        Some(USEC_PER_SEC as int)
    } else if u == "m"@ || u == "min"@ || u == "minute"@ || u == "minutes"@ {
        Some(USEC_PER_MINUTE as int)
    } else if u == "h"@ || u == "hour"@ || u == "hours"@ || u == "hr"@ {
        Some(USEC_PER_HOUR as int)
    } else if u == "d"@ || u == "day"@ || u == "days"@ {
        Some(USEC_PER_DAY as int)
    } else if u == "M"@ || u == "month"@ || u == "months"@ {
        Some(USEC_PER_MONTH as int)
    } else if u == "w"@ || u == "week"@ || u == "weeks"@ {
        Some(USEC_PER_WEEK as int)
    } else if u == "y"@ || u == "year"@ || u == "years"@ {
        Some(USEC_PER_YEAR as int)
    } else {
        None
    }
}

/// `h` spells an hour.
pub proof fn lemma_unit_hour()
    ensures
        unit_usecs("h"@) == Some(USEC_PER_HOUR as int),
{
    reveal_strlit("h");
    reveal_strlit("us");
    reveal_strlit("usec");
    reveal_strlit("\u{b5}s");
    reveal_strlit("ms");
    reveal_strlit("msec");
    reveal_strlit("s");
    reveal_strlit("sec");
    reveal_strlit("second");
    reveal_strlit("seconds");
    reveal_strlit("m");
    reveal_strlit("min");
    reveal_strlit("minute");
    reveal_strlit("minutes");
    assert("h"@ != "s"@) by {
        assert("h"@[0] != "s"@[0]);
    }
    assert("h"@ != "m"@) by {
        assert("h"@[0] != "m"@[0]);
    }
    assert("h"@.len() == 1);
    assert("\u{b5}s"@.len() == 2);
    assert(!("h"@ == "us"@ || "h"@ == "usec"@ || "h"@ == "\u{b5}s"@));
    assert(!("h"@ == "ms"@ || "h"@ == "msec"@));
    assert(!("h"@ == "s"@ || "h"@ == "sec"@ || "h"@ == "second"@ || "h"@ == "seconds"@));
    assert(!("h"@ == "m"@ || "h"@ == "min"@ || "h"@ == "minute"@ || "h"@ == "minutes"@));
}

/// Looks up the length in microseconds of the time unit spelled `unit`.
pub fn usec_multiplier(unit: &str) -> (r: Option<i64>)
    ensures
        r is Some <==> unit_usecs(unit@) is Some,
        r matches Some(m) ==> m == unit_usecs(unit@)->0,
{
    if same_text(unit, "us") || same_text(unit, "usec") || same_text(unit, "\u{b5}s") {
        Some(USEC_PER_USEC)
    } else if same_text(unit, "ms") || same_text(unit, "msec") {
        Some(USEC_PER_MSEC)
    } else if same_text(unit, "s") || same_text(unit, "sec") || same_text(unit, "second")
        || same_text(unit, "seconds") {
        Some(USEC_PER_SEC)
    } else if same_text(unit, "m") || same_text(unit, "min") || same_text(unit, "minute")
        || same_text(unit, "minutes") {
        Some(USEC_PER_MINUTE)
    } else if same_text(unit, "h") || same_text(unit, "hour") || same_text(unit, "hours")
        || same_text(unit, "hr") {
        Some(USEC_PER_HOUR)
    } else if same_text(unit, "d") || same_text(unit, "day") || same_text(unit, "days") {
        Some(USEC_PER_DAY)
    } else if same_text(unit, "M") || same_text(unit, "month") || same_text(unit, "months") {
        Some(USEC_PER_MONTH)
    } else if same_text(unit, "w") || same_text(unit, "week") || same_text(unit, "weeks") {
        Some(USEC_PER_WEEK)
    } else if same_text(unit, "y") || same_text(unit, "year") || same_text(unit, "years") {
        Some(USEC_PER_YEAR)
    } else {
        None
    }
}

} // verus!
