//! Limits that the host sets: how long a claim lasts, and how much disk is free.
use vstd::prelude::*;
use vstd::string::*;
use crate::datasets::opt_text;
use crate::decimal::{parse_i64, signed_number};
use crate::text::{trim, trimmed};

verus! {

/// Seconds that a claim lasts unless the operator says otherwise.
pub const DEFAULT_LEASE_SECS: i64 = 30;

/// The least that an operator can ask for: a heartbeat renews every third of the
/// lease, at most once a second, and two may be missed.
pub const MIN_LEASE_SECS: i64 = 3;

/// The seconds that an operator's setting gives, before the floor.
pub open spec fn asked_lease(raw: Option<Seq<char>>) -> int {
    match raw {
        Some(s) => match signed_number(trimmed(s)) {
            Some(n) => if i64::MIN <= n <= i64::MAX { n } else { DEFAULT_LEASE_SECS as int },
            None => DEFAULT_LEASE_SECS as int,
        },
        None => DEFAULT_LEASE_SECS as int,
    }
}

/// How many seconds a claim lasts, by the operator's setting.
pub fn lease_secs(raw: Option<&str>) -> (n: i64)
    ensures
        n == (if asked_lease(opt_text(raw)) < MIN_LEASE_SECS {
            MIN_LEASE_SECS as int
        } else {
            asked_lease(opt_text(raw))
        }),
        n >= MIN_LEASE_SECS,
{
    let asked: i64 = match raw {
        Some(s) => match parse_i64(trim(s)) {
            Some(n) => n,
            None => DEFAULT_LEASE_SECS,
        },
        None => DEFAULT_LEASE_SECS,
    };
    if asked < MIN_LEASE_SECS {
        MIN_LEASE_SECS
    } else {
        asked
    }
}

/// A lease at or above the floor leaves room for two missed heartbeats, each a
/// third of the lease apart.
pub proof fn law_lease_outlasts_two_heartbeats(raw: Option<Seq<char>>)
    ensures
        ({
            let lease = if asked_lease(raw) < MIN_LEASE_SECS {
                MIN_LEASE_SECS as int
            } else {
                asked_lease(raw)
            };
            lease / 3 >= 1 && 3 * (lease / 3) <= lease
        }),
{
}

/// The bytes that a file system has left for an unprivileged process: so many
/// fragments of so many bytes.
pub fn free_bytes(available: u64, fragment: u64) -> (n: u64)
    ensures
        n == (if available * fragment <= u64::MAX { available * fragment } else { u64::MAX as int }),
{
    match available.checked_mul(fragment) {
        Some(n) => n,
        None => u64::MAX,
    }
}

} // verus!
