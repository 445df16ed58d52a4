//! The wall clock, read in microseconds since the Unix epoch.

use vstd::prelude::*;

use crate::Error;

verus! {

/// Relies on `SystemTime::elapsed` applied to `UNIX_EPOCH`: it fails when the
/// clock stands before the epoch; otherwise whole seconds and the microseconds
/// of the last, partial second, which `Duration::subsec_micros` keeps under a
/// million.
#[verifier::external_body]
fn since_epoch() -> (r: Option<(u64, u32)>)
    ensures
        r matches Some((_, us)) ==> us < 1_000_000,
{
    match std::time::UNIX_EPOCH.elapsed() {
        Ok(d) => Some((d.as_secs(), d.subsec_micros())),
        Err(_) => None,
    }
}

/// Microseconds in `secs` seconds and `micros` microseconds.
pub open spec fn micros_of(secs: u64, micros: u32) -> int {
    secs * 1_000_000 + micros
}

/// Combine seconds and microseconds into one timestamp; fails when it does
/// not fit 64 bits.
pub fn to_micros(secs: u64, micros: u32) -> (r: Result<u64, Error>)
    ensures
        micros_of(secs, micros) <= u64::MAX ==> r == Ok::<u64, Error>(micros_of(secs, micros) as u64),
        micros_of(secs, micros) > u64::MAX ==> r == Err::<u64, Error>(Error::Fatal),
{
    match secs.checked_mul(1_000_000) {
        Some(s) => match s.checked_add(micros as u64) {
            Some(t) => Ok(t),
            None => Err(Error::Fatal),
        },
        None => Err(Error::Fatal),
    }
}

/// The time now, in microseconds since the epoch. Fails with `Fatal` when the
/// clock cannot be read.
pub fn now_micros() -> (r: Result<u64, Error>)
    ensures
        r matches Err(e) ==> e == Error::Fatal,
{
    match since_epoch() {
        Some((s, us)) => to_micros(s, us),
        None => Err(Error::Fatal),
    }
}

} // verus!
