//! omp-deck: the decisions and texts behind a small dashboard for the live
//! `omp` collab sessions on this machine.
//!
//! Every function here states what it returns; running `omp`, serving HTTP,
//! calling the webhook and walking directories are left to the program around
//! the library.

use std::time::{Duration, SystemTime};
use vstd::prelude::*;

pub mod bind;
pub mod cli;
pub mod config;
pub mod model;
pub mod notify;
pub mod omp;
pub mod page;
pub mod repos;
pub mod server;
pub mod text;
pub mod update;
pub mod view;
pub mod walk;

verus! {

/// `std::time::SystemTime`, a reading of the wall clock.
#[verifier::external_type_specification]
#[verifier::external_body]
pub struct ExSystemTime(std::time::SystemTime);

/// `std::time::SystemTime::now` reads the wall clock; nothing holds of every
/// reading.
pub assume_specification[ SystemTime::now ]() -> SystemTime
;

/// Calls `std::time::SystemTime::duration_since` with the unix epoch; none means
/// that the reading lies before it. How far it lies from it rests on the clock.
#[verifier::external_body]
fn since_epoch(t: SystemTime) -> (r: Option<Duration>) {
    match t.duration_since(std::time::UNIX_EPOCH) {
        Ok(d) => Some(d),
        Err(_) => None,
    }
}

/// `std::time::Duration::as_millis` gives the whole milliseconds of a duration.
/// A duration is opaque here, so nothing is said of the number.
pub assume_specification[ Duration::as_millis ](d: &Duration) -> u128
;

/// The time that a reading of the clock stands for.
pub open spec fn unix_time(since_epoch: Option<u128>) -> int {
    match since_epoch {
        Some(ms) => if ms <= i64::MAX {
            ms as int
        } else {
            i64::MAX as int
        },
        None => 0,
    }
}

/// Every time that fits is told as it is, a later one as the last that does, and one
/// before the epoch as the epoch; so a later reading is never told as an earlier time.
pub proof fn time_is_told_in_order(a: u128, b: u128)
    requires
        a <= b,
    ensures
        a <= 0x7fff_ffff_ffff_ffff ==> unix_time(Some(a)) == a,
        a > 0x7fff_ffff_ffff_ffff ==> unix_time(Some(a)) == 0x7fff_ffff_ffff_ffff,
        unix_time(None) == 0,
        unix_time(Some(a)) <= unix_time(Some(b)),
{
}

/// The wall-clock time as unix milliseconds: 0 before the epoch, and the largest
/// number that fits where the time does not.
pub fn unix_ms(since_epoch: Option<u128>) -> (r: i64)
    ensures
        r == unix_time(since_epoch),
        r == match since_epoch {
            Some(ms) => if ms <= i64::MAX {
                ms as int
            } else {
                i64::MAX as int
            },
            None => 0,
        },
{
    match since_epoch {
        Some(ms) => if ms <= 0x7fff_ffff_ffff_ffff {
            ms as i64
        } else {
            i64::MAX
        },
        None => 0,
    }
}

/// Current wall-clock time as unix milliseconds, never negative.
pub fn now_ms() -> (r: i64)
    ensures
        r >= 0,
{
    match since_epoch(SystemTime::now()) {
        Some(d) => unix_ms(Some(d.as_millis())),
        None => unix_ms(None),
    }
}

} // verus!
