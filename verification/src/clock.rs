//! Wall-clock time: the standard library's `Instant` and `Duration`, behind contracts
//! that are stated but not proved.

use std::time::{Duration, Instant};
use vstd::prelude::*;

verus! {

/// `std::time::Instant`, carried through verified code as an opaque value.
#[verifier::external_type_specification]
#[verifier::external_body]
pub struct ExInstant(std::time::Instant);

/// The whole seconds of a duration: what `Duration::as_secs` returns for it.
pub uninterp spec fn duration_secs(d: Duration) -> u64;

/// The part of a duration below one second, in nanoseconds: what
/// `Duration::subsec_nanos` returns for it.
pub uninterp spec fn duration_subsec_nanos(d: Duration) -> u32;

/// The text that formatting with `{:.2?}` gives for the duration of `secs` seconds and
/// `nanos` nanoseconds.
pub uninterp spec fn duration_text(secs: u64, nanos: u32) -> Seq<char>;

/// Nanoseconds in one second.
pub open spec fn nanos_per_sec() -> nat {
    1_000_000_000
}

/// The length of a duration in nanoseconds.
pub open spec fn duration_nanos(d: Duration) -> nat {
    duration_secs(d) as nat * nanos_per_sec() + duration_subsec_nanos(d) as nat
}

/// Calls `Instant::now`. The result depends on when the call is made, so nothing is
/// claimed of it.
#[verifier::external_body]
pub(crate) fn now() -> Instant {
    Instant::now()
}

/// Calls `Instant::elapsed`. The result depends on when the call is made, so nothing is
/// claimed of it.
#[verifier::external_body]
pub(crate) fn elapsed_since(start: &Instant) -> Duration {
    start.elapsed()
}

/// Calls `Duration::as_secs`, whose result gives `duration_secs` its meaning.
#[verifier::external_body]
pub(crate) fn whole_secs(d: &Duration) -> (secs: u64)
    ensures
        secs == duration_secs(*d),
{
    d.as_secs()
}

/// Calls `Duration::subsec_nanos`, whose result gives `duration_subsec_nanos` its
/// meaning. The standard library documents that the result is less than one billion.
#[verifier::external_body]
pub(crate) fn subsec_nanos(d: &Duration) -> (nanos: u32)
    ensures
        nanos == duration_subsec_nanos(*d),
        nanos < 1_000_000_000,
{
    d.subsec_nanos()
}

/// Calls `Duration::new`. Nanoseconds of a billion or more would be carried over into
/// the seconds, which stops the program where the seconds overflow; below a billion
/// nothing is carried and both parts are kept as given.
#[verifier::external_body]
pub(crate) fn duration_of(secs: u64, nanos: u32) -> (d: Duration)
    requires
        nanos < 1_000_000_000,
    ensures
        duration_secs(d) == secs,
        duration_subsec_nanos(d) == nanos,
{
    Duration::new(secs, nanos)
}

/// Formats a duration with `{:.2?}`: its `Debug` text with two digits after the point,
/// which gives `duration_text` its meaning.
#[verifier::external_body]
pub(crate) fn format_duration(d: &Duration) -> (text: String)
    ensures
        text@ == duration_text(duration_secs(*d), duration_subsec_nanos(*d)),
{
    format!("{:.2?}", d)
}

} // verus!
