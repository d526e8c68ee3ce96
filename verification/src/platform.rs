//! What the machine takes from its surroundings: random bytes from `rand` and the
//! wall clock from `std::time`. Each item here is trusted, not proved; its doc comment
//! says what is claimed of the outside function it calls.

use rand::rngs::OsRng;
use rand::rngs::StdRng;
use rand::Rng;
use rand::SeedableRng;
use std::time::Duration;
use std::time::SystemTime;
use std::time::SystemTimeError;
use std::time::UNIX_EPOCH;
use vstd::prelude::*;

verus! {

/// `rand::rngs::StdRng`, a seeded pseudo-random generator, carried through opaquely.
#[verifier::external_type_specification]
#[verifier::external_body]
pub struct ExStdRng(rand::rngs::StdRng);

/// `rand::Error`, the error of a generator that could not get entropy.
#[verifier::external_type_specification]
#[verifier::external_body]
pub struct ExRandError(rand::Error);

/// `std::time::SystemTime`, a reading of the wall clock, carried through opaquely.
#[verifier::external_type_specification]
#[verifier::external_body]
pub struct ExSystemTime(std::time::SystemTime);

/// `std::time::SystemTimeError`, the error of a clock reading taken before the epoch.
#[verifier::external_type_specification]
#[verifier::external_body]
pub struct ExSystemTimeError(std::time::SystemTimeError);

/// Calls `SeedableRng::from_rng(OsRng)` for `StdRng`: the seed is filled from the
/// operating system's entropy source with `try_fill_bytes`, whose failure comes back
/// as the `Err`. Nothing is claimed of which outcome comes back, nor of the generator.
#[verifier::external_body]
pub(crate) fn rng_from_os() -> Result<StdRng, rand::Error> {
    StdRng::from_rng(OsRng)
}

/// Calls `Rng::gen::<u8>` on a `StdRng` (the low byte of its next `u32`; a `StdRng`
/// never reseeds, so the call cannot fail). The byte is pseudo-random: nothing is
/// claimed of it.
#[verifier::external_body]
pub(crate) fn random_byte(rng: &mut StdRng) -> u8 {
    rng.gen::<u8>()
}

/// Calls `SystemTime::now`. The reading depends on the machine's clock: nothing is
/// claimed of it.
#[verifier::external_body]
pub(crate) fn system_now() -> SystemTime {
    SystemTime::now()
}

/// Calls `SystemTime::duration_since(UNIX_EPOCH)`. It fails when the reading lies
/// before the epoch; as both values are opaque, nothing is claimed of which outcome
/// comes back.
#[verifier::external_body]
pub(crate) fn since_unix_epoch(t: SystemTime) -> Result<Duration, SystemTimeError> {
    t.duration_since(UNIX_EPOCH)
}

/// Calls `Duration::as_micros`. The duration is opaque here, so nothing is claimed of
/// the number of microseconds returned.
#[verifier::external_body]
pub(crate) fn duration_micros(d: &Duration) -> u128 {
    d.as_micros()
}

} // verus!
