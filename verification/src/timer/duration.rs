//! Conversions between nanoseconds and coarser units.

use vstd::prelude::*;

verus! {

pub const NS_PER_US: u64 = 1_000;

pub const NS_PER_MS: u64 = 1_000_000;

pub const NS_PER_SEC: u64 = 1_000_000_000;

pub const NS_PER_MIN: u64 = 60 * NS_PER_SEC;

pub const NS_PER_HOUR: u64 = 60 * NS_PER_MIN;

/// Milliseconds as nanoseconds.
pub fn from_ms(ms: u64) -> (ns: u64)
    requires
        ms * NS_PER_MS <= u64::MAX,
    ensures
        ns == ms * NS_PER_MS,
{
    ms * NS_PER_MS
}

/// Seconds as nanoseconds.
pub fn from_secs(secs: u64) -> (ns: u64)
    requires
        secs * NS_PER_SEC <= u64::MAX,
    ensures
        ns == secs * NS_PER_SEC,
{
    secs * NS_PER_SEC
}

/// Microseconds as nanoseconds.
pub fn from_us(us: u64) -> (ns: u64)
    requires
        us * NS_PER_US <= u64::MAX,
    ensures
        ns == us * NS_PER_US,
{
    us * NS_PER_US
}

/// Minutes as nanoseconds.
pub fn from_mins(mins: u64) -> (ns: u64)
    requires
        mins * NS_PER_MIN <= u64::MAX,
    ensures
        ns == mins * NS_PER_MIN,
{
    mins * NS_PER_MIN
}

/// Whole milliseconds in `ns`.
pub fn to_ms(ns: u64) -> (ms: u64)
    ensures
        ms == ns / NS_PER_MS,
{
    ns / NS_PER_MS
}

/// Whole seconds in `ns`.
pub fn to_secs(ns: u64) -> (secs: u64)
    ensures
        secs == ns / NS_PER_SEC,
{
    ns / NS_PER_SEC
}

/// Whole microseconds in `ns`.
pub fn to_us(ns: u64) -> (us: u64)
    ensures
        us == ns / NS_PER_US,
{
    ns / NS_PER_US
}

} // verus!
