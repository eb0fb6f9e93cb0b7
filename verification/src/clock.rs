//! Wall-clock time.
use vstd::prelude::*;

verus! {

#[verifier::external_type_specification]
#[verifier::external_body]
pub struct ExSystemTime(std::time::SystemTime);

/// `std::time::SystemTime::now`: the current system time. Nothing is
/// claimed of it.
#[verifier::external_body]
fn system_now() -> std::time::SystemTime {
    std::time::SystemTime::now()
}

/// `SystemTime::duration_since(UNIX_EPOCH)`: the time elapsed since the
/// epoch, `None` when `t` lies before it. Nothing is claimed of the value.
#[verifier::external_body]
fn since_epoch(t: std::time::SystemTime) -> Option<core::time::Duration> {
    t.duration_since(std::time::UNIX_EPOCH).ok()
}

/// `Duration::as_nanos`: the whole nanoseconds in `d`. Nothing is claimed of
/// the value (the duration is opaque here).
#[verifier::external_body]
fn duration_nanos(d: core::time::Duration) -> u128 {
    d.as_nanos()
}

/// The `i64` timestamp for a clock reading: the nanoseconds since the Unix
/// epoch, wrapped into an `i64` as Rust's `as` does, or 0 when the clock
/// read before the epoch (`None`).
pub fn ns_from_epoch_nanos(n: Option<u128>) -> (r: i64)
    ensures
        r == ns_of_reading(n),
{
    match n {
        Some(v) => {
            #[verifier::truncate]
            (v as i64)
        },
        None => 0,
    }
}

/// Nanoseconds since the Unix epoch as an `i64` (wrapping as Rust's `as`
/// does), or 0 when the clock reads before the epoch. What the clock reads
/// is not stated; the result is `ns_from_epoch_nanos` of that reading.
pub fn now_ns() -> (r: i64)
    ensures
        exists|n: Option<u128>| r == #[trigger] ns_of_reading(n),
{
    let reading = match since_epoch(system_now()) {
        Some(d) => Some(duration_nanos(d)),
        None => None,
    };
    let r = ns_from_epoch_nanos(reading);
    assert(r == ns_of_reading(reading));
    r
}

/// The `i64` timestamp for a reading of whole nanoseconds since the epoch
/// (`None` before the epoch), as `ns_from_epoch_nanos` computes it.
pub open spec fn ns_of_reading(n: Option<u128>) -> i64 {
    match n {
        Some(v) => v as i64,
        None => 0i64,
    }
}

} // verus!
