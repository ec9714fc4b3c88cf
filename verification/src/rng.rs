//! The generator of random numbers that decides when an alien fires.
//!
//! What stands here is taken on trust from the `rand` crate: Verus does not
//! look into it.
use rand::Rng;
use vstd::prelude::*;

verus! {

/// The handle `rand::rngs::ThreadRng` to the generator of a thread, of which
/// nothing is known here.
#[verifier::external_type_specification]
#[verifier::external_body]
pub struct ExThreadRng(rand::rngs::ThreadRng);

/// `rand::rng` hands out the handle to the generator of the calling thread.
/// Nothing is claimed of the handle. The first call in a thread seeds the
/// generator from the operating system and panics where that fails.
pub assume_specification[ rand::rng ]() -> rand::rngs::ThreadRng
;

/// A chance of `numerator` in `denominator`.
#[derive(Clone, Copy, Debug, PartialEq, Eq, Structural)]
pub struct Odds {
    pub numerator: u32,
    pub denominator: u32,
}

impl Odds {
    /// The chance is one that a draw can be made with.
    pub open spec fn wf(self) -> bool {
        0 < self.denominator && self.numerator <= self.denominator
    }

    /// Every draw succeeds.
    pub open spec fn certain(self) -> bool {
        self.numerator == self.denominator
    }

    /// No draw succeeds.
    pub open spec fn never(self) -> bool {
        self.numerator == 0
    }

    /// Whether a draw may have come out as `drawn`.
    pub open spec fn allows(self, drawn: bool) -> bool {
        &&& self.certain() ==> drawn
        &&& self.never() ==> !drawn
    }

    /// Whether a draw can be made with the chance.
    pub fn is_wf(&self) -> (ok: bool)
        ensures
            ok == self.wf(),
    {
        0 < self.denominator && self.numerator <= self.denominator
    }
}

/// A chance of one in `n`.
pub open spec fn one_in(n: u32) -> Odds {
    Odds { numerator: 1, denominator: n }
}

/// `rand::Rng::random_ratio` on the generator of a thread: a draw that
/// succeeds with a chance of `numerator` in `denominator`. Its documentation
/// promises the outcome for a chance of one, which always succeeds, and for a
/// chance of zero, which never does; it panics on the chances that the
/// precondition leaves out. The generator reseeds itself from the operating
/// system after every 64 kB drawn, and a draw that meets a reseed panics
/// where that fails.
#[verifier::external_body]
pub(crate) fn random_ratio(
    rng: &mut rand::rngs::ThreadRng,
    numerator: u32,
    denominator: u32,
) -> (drawn: bool)
    requires
        0 < denominator,
        numerator <= denominator,
    ensures
        numerator == denominator ==> drawn,
        numerator == 0 ==> !drawn,
{
    rng.random_ratio(numerator, denominator)
}

/// Draws once with the given chance.
pub(crate) fn draw(rng: &mut rand::rngs::ThreadRng, odds: Odds) -> (drawn: bool)
    requires
        odds.wf(),
    ensures
        odds.allows(drawn),
{
    random_ratio(rng, odds.numerator, odds.denominator)
}

} // verus!
