//! A small xorshift random number generator seeded from the clock.

use vstd::prelude::*;
use std::time::Duration;

verus! {

#[verifier::external_type_specification]
#[verifier::external_body]
pub struct ExInstant(std::time::Instant);

/// The current instant (`instant::Instant::now`); depends on the clock, so nothing is stated
/// of it.
#[verifier::external_body]
fn clock_now() -> (i: std::time::Instant) {
    instant::Instant::now()
}

/// The time passed since `i` (`Instant::elapsed`); depends on the clock, so nothing is stated
/// of it.
#[verifier::external_body]
fn clock_elapsed(i: &std::time::Instant) -> (d: Duration) {
    i.elapsed()
}

/// The whole nanoseconds of `d` (`Duration::as_nanos`); a duration is opaque here, so nothing
/// is stated of the number.
#[verifier::external_body]
fn duration_nanos(d: &Duration) -> (n: u128) {
    d.as_nanos()
}

/// A xorshift generator: the 64-bit state it steps.
pub struct Rnd {
    seed: u64,
}

impl View for Rnd {
    type V = u64;

    closed spec fn view(&self) -> u64 {
        self.seed
    }
}

/// The first two shifts of one xorshift step.
pub open spec fn xorshift_mid(s: u64) -> u64 {
    let a = s ^ (s >> 13u64);
    a ^ (a << 11u64)
}

/// The state after one xorshift step.
pub open spec fn xorshift(s: u64) -> u64 {
    let b = xorshift_mid(s);
    b ^ (b >> 8u64)
}

impl Rnd {
    /// A generator seeded with the nanoseconds the clock measures right after it is read; the
    /// seed depends on the clock and nothing is stated of it.
    pub fn new() -> (r: Self) {
        let start = clock_now();
        let passed = clock_elapsed(&start);
        let nanos = duration_nanos(&passed);
        #[verifier::truncate]
        let seed = nanos as u64;
        Self { seed }
    }

    /// Steps the generator and returns a number below `range`: the state after the first two
    /// shifts of the step, modulo `range`.
    pub fn get_u32(&mut self, range: u32) -> (r: u32)
        requires
            range > 0,
        ensures
            final(self)@ == xorshift(old(self)@),
            r as int == xorshift_mid(old(self)@) as int % range as int,
            r < range,
    {
        let mut seed = self.seed;
        seed = seed ^ (seed >> 13);
        seed = seed ^ (seed << 11);
        self.seed = seed ^ (seed >> 8);
        (seed % range as u64) as u32
    }
}

} // verus!
