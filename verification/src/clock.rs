//! Time stamps: how long ago a file changed, and the FILETIME stamps EVE
//! puts on every settings value.
use vstd::prelude::*;
use crate::text::{decimal, push_decimal};

verus! {

/// Seconds from 1601-01-01 (the FILETIME epoch) to 1970-01-01.
pub const FILETIME_UNIX_OFFSET_SECS: u64 = 11_644_473_600;

/// FILETIME ticks (100 ns) per second.
pub const FILETIME_TICKS_PER_SEC: u64 = 10_000_000;

/// `std::time::SystemTime::now`, as whole seconds since the Unix epoch (0
/// where the clock is set before it). Nothing is claimed of the value: it
/// is whatever the machine's clock says.
#[verifier::external_body]
fn unix_now_secs() -> u64 {
    std::time::SystemTime::now()
        .duration_since(std::time::UNIX_EPOCH)
        .map(|d| d.as_secs())
        .unwrap_or(0)
}

/// How long ago `timestamp` was, seen at `now` (both in Unix seconds).
pub open spec fn relative_time(timestamp: u64, now: u64) -> Seq<char> {
    let diff: int = if now > timestamp {
        now - timestamp
    } else {
        0
    };
    if diff < 60 {
        "just now"@
    } else if diff < 3600 {
        decimal((diff / 60) as nat) + "m ago"@
    } else if diff < 86400 {
        decimal((diff / 3600) as nat) + "h ago"@
    } else {
        decimal((diff / 86400) as nat) + "d ago"@
    }
}

/// Computes [`relative_time`].
pub fn format_relative_time_at(timestamp: u64, now: u64) -> (r: String)
    ensures
        r@ == relative_time(timestamp, now),
{
    let diff = now.saturating_sub(timestamp);
    if diff < 60 {
        "just now".to_owned()
    } else {
        let (n, unit) = if diff < 3600 {
            (diff / 60, "m ago")
        } else if diff < 86400 {
            (diff / 3600, "h ago")
        } else {
            (diff / 86400, "d ago")
        };
        let mut s = String::new();
        push_decimal(&mut s, n);
        crate::text::push_str(&mut s, unit);
        assert(s@ == Seq::<char>::empty() + decimal(n as nat) + unit@);
        s
    }
}

/// How long ago `timestamp` was, by the machine's clock.
pub fn format_relative_time(timestamp: u64) -> (r: String)
    ensures
        exists|now: u64| r@ == relative_time(timestamp, now),
{
    let now = unix_now_secs();
    format_relative_time_at(timestamp, now)
}

/// The FILETIME stamp (100 ns ticks since 1601) of a Unix time, computed
/// in 64-bit arithmetic that wraps.
pub open spec fn filetime_of(unix_secs: u64) -> u64 {
    unix_secs.wrapping_add(FILETIME_UNIX_OFFSET_SECS).wrapping_mul(FILETIME_TICKS_PER_SEC)
}

/// Computes [`filetime_of`]; for any time before the year 58000 this is the
/// exact tick count.
pub fn filetime_from_unix(unix_secs: u64) -> (r: u64)
    ensures
        r == filetime_of(unix_secs),
        (unix_secs + FILETIME_UNIX_OFFSET_SECS) * FILETIME_TICKS_PER_SEC <= u64::MAX ==> r == (
        unix_secs + FILETIME_UNIX_OFFSET_SECS) * FILETIME_TICKS_PER_SEC,
{
    let r = unix_secs.wrapping_add(FILETIME_UNIX_OFFSET_SECS).wrapping_mul(FILETIME_TICKS_PER_SEC);
    proof {
        if (unix_secs + FILETIME_UNIX_OFFSET_SECS) * FILETIME_TICKS_PER_SEC <= u64::MAX {
            assert(unix_secs + FILETIME_UNIX_OFFSET_SECS <= u64::MAX);
            assert(unix_secs.wrapping_add(FILETIME_UNIX_OFFSET_SECS) == unix_secs + FILETIME_UNIX_OFFSET_SECS);
        }
    }
    r
}

/// The FILETIME stamp of the machine's current time.
pub fn filetime_now() -> (r: u64)
    ensures
        exists|now: u64| r == filetime_of(now),
{
    filetime_from_unix(unix_now_secs())
}

} // verus!
