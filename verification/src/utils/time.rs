//! Wall-clock time stamps.
use vstd::prelude::*;

use crate::text::{nat_str, push_u64, string_of};

verus! {

#[verifier::external_type_specification]
#[verifier::external_body]
pub struct ExSystemTime(std::time::SystemTime);

/// Wraps `SystemTime::now`: the clock's current reading. Nothing is claimed
/// of it.
#[verifier::external_body]
fn clock_now() -> (t: std::time::SystemTime) {
    std::time::SystemTime::now()
}

/// Wraps `SystemTime::duration_since` from `UNIX_EPOCH`: the time since
/// 1970, or `None` when `t` is earlier (std's error, dropped). Nothing is
/// claimed of the duration.
#[verifier::external_body]
fn since_epoch(t: &std::time::SystemTime) -> (d: Option<std::time::Duration>) {
    match t.duration_since(std::time::UNIX_EPOCH) {
        Ok(d) => Some(d),
        Err(_) => None,
    }
}

/// Wraps `Duration::as_secs`: the whole seconds of `d`. Nothing is claimed
/// of the value, since `Duration` is opaque here.
#[verifier::external_body]
fn whole_seconds(d: &std::time::Duration) -> (secs: u64) {
    d.as_secs()
}

/// The current Unix time in seconds, in decimal; a clock set before 1970
/// reads as 0.
pub fn now_utc() -> (r: String)
    ensures
        exists|n: nat| r@ == nat_str(n),
{
    let now = clock_now();
    let secs = match since_epoch(&now) {
        Some(d) => whole_seconds(&d),
        None => 0,
    };
    let mut v: Vec<char> = Vec::new();
    push_u64(&mut v, secs);
    proof {
        assert(v@ =~= nat_str(secs as nat));
    }
    string_of(&v)
}

} // verus!
