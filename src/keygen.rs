//! The choices made when a helper's TLS certificate is generated: its
//! validity window and its serial number.
use vstd::prelude::*;
use rand::Rng;

verus! {

/// Seconds in a day.
pub const SECONDS_PER_DAY: i64 = 86_400;

/// The days that a certificate is valid for, counted from its start.
pub const VALIDITY_DAYS: i64 = 91;

/// What to generate: the DNS name of the certificate and the files that the
/// certificate and its private key are written to.
pub struct KeygenArgs {
    pub name: String,
    pub tls_cert: String,
    pub tls_key: String,
}

/// When a certificate is valid, in seconds since the Unix epoch.
#[derive(Debug, Clone, Copy, PartialEq, Eq, Structural)]
pub struct CertificateValidity {
    pub not_before: i64,
    pub not_after: i64,
}

/// The validity window of a certificate generated at `now`: from a day
/// before `now`, for `VALIDITY_DAYS` days.
pub open spec fn validity_at(now: int) -> (int, int) {
    (now - SECONDS_PER_DAY, now - SECONDS_PER_DAY + VALIDITY_DAYS * SECONDS_PER_DAY)
}

/// Computes the validity window of a certificate generated at `now`, in
/// seconds since the Unix epoch. The window starts a day early so that
/// clocks a little behind accept it.
pub fn certificate_validity(now: i64) -> (r: CertificateValidity)
    requires
        i64::MIN + SECONDS_PER_DAY <= now <= i64::MAX - (VALIDITY_DAYS - 1) * SECONDS_PER_DAY,
    ensures
        (r.not_before as int, r.not_after as int) == validity_at(now as int),
{
    let not_before = now - SECONDS_PER_DAY;
    CertificateValidity { not_before, not_after: not_before + VALIDITY_DAYS * SECONDS_PER_DAY }
}

/// Relies on `rand::Rng::gen_range` over `0..=i64::MAX` with the thread-local
/// generator: a value in that range.
#[verifier::external_body]
fn random_serial_below_i64_max() -> (r: u64)
    ensures
        r <= i64::MAX,
{
    rand::thread_rng().gen_range(0..=(i64::MAX as u64))
}

/// Draws a certificate serial number, uniformly from `0..=i64::MAX`.
pub fn certificate_serial_number() -> (r: u64)
    ensures
        r <= i64::MAX,
{
    random_serial_below_i64_max()
}

} // verus!
