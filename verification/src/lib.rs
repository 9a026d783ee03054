//! A domain-decomposed, bulk-synchronous driver core for a spatial epidemic
//! simulation.
//!
//! The grid is split into rectangular patches; each patch owns a tile of the
//! grid and carries a halo ("padding") of replicated neighbor state so that it
//! can advance several ticks between synchronizations.  This crate holds the
//! verified core of that driver: patch geometry, the independent-tick planner,
//! the neighbor-candidate computation, the per-patch bookkeeping (population,
//! halo wipe and refill, trace and statistics), and the output merge.  The
//! unverifiable surroundings — threads, channels, the single-person movement
//! and infection rule, the obstacle-aware propagation oracle — stay outside
//! and drive the functions of this crate.

use vstd::prelude::*;

pub mod driver;
pub mod laws;
pub mod geometry;
pub mod model;
pub mod patch;
pub mod util;

verus! {

/// The halo is too narrow for the infection radius: the run is refused before
/// any patch starts.
#[derive(Clone, Copy, PartialEq, Eq, Structural, Debug)]
pub struct InsufficientPaddingError {
    pub padding: usize,
}

impl InsufficientPaddingError {
    pub fn new(padding: usize) -> (r: InsufficientPaddingError)
        ensures
            r.padding == padding,
    {
        InsufficientPaddingError { padding }
    }
}

/// Accepts a halo width exactly when it admits at least one independent tick:
/// the halo must cover one tick of movement on each side plus the infection
/// radius, `padding >= infection_radius + 2`.
pub fn check_padding(padding: usize, infection_radius: usize) -> (r: Result<
    (),
    InsufficientPaddingError,
>)
    ensures
        r is Err <==> padding < infection_radius + 2,
        r is Err ==> r->Err_0.padding == padding,
{
    if padding < 2 || padding - 2 < infection_radius {
        Err(InsufficientPaddingError::new(padding))
    } else {
        Ok(())
    }
}

/// How many ticks beyond the first a freshly synchronized patch may still run,
/// given that `remaining` halo cells are left after the first tick consumed
/// `infection_radius + 2` of them.  Each cycle spends up to
/// `incubation_time - 1` incubation ticks costing `2` cells each (stopping
/// early when fewer than `2` are left), then one possibly-contagious tick
/// costing `infection_radius + 2` — unless too few cells remain for it.
pub open spec fn spec_extra_ticks(remaining: int, incubation_time: int, infection_radius: int) -> int
    recommends
        remaining >= 0,
        infection_radius >= 0,
    decreases remaining,
    when infection_radius >= 0
{
    if remaining <= 0 {
        0
    } else {
        let steps = if incubation_time >= 1 {
            if incubation_time - 1 <= remaining / 2 {
                incubation_time - 1
            } else {
                remaining / 2
            }
        } else {
            0
        };
        let rest = remaining - 2 * steps;
        if rest <= infection_radius + 1 {
            steps
        } else {
            steps + 1 + spec_extra_ticks(rest - (infection_radius + 2), incubation_time,
                infection_radius)
        }
    }
}

/// The number of ticks a patch may run between two halo exchanges: one tick is
/// always possible, and every further tick spends halo cells as
/// [`spec_extra_ticks`] describes.
pub fn calc_independent_ticks(padding: usize, incubation_time: usize, infection_radius: usize) -> (ticks:
    usize)
    requires
        infection_radius + 2 <= padding,
    ensures
        ticks == 1 + spec_extra_ticks((padding - 2 - infection_radius) as int,
            incubation_time as int, infection_radius as int),
        ticks >= 1,
        padding == infection_radius + 2 ==> ticks == 1,
{
    let ghost init: int = (padding - 2 - infection_radius) as int;
    let mut remaining = padding - 2 - infection_radius;
    let mut ticks: usize = 1;

    while remaining > 0
        invariant_except_break
            ticks + spec_extra_ticks(remaining as int, incubation_time as int,
                infection_radius as int) == 1 + spec_extra_ticks(init, incubation_time as int,
                infection_radius as int),
        invariant
            ticks >= 1,
            2 * (ticks - 1) + remaining <= init,
            init <= usize::MAX,
            infection_radius + 2 <= usize::MAX,
        ensures
            ticks == 1 + spec_extra_ticks(init, incubation_time as int, infection_radius as int),
        decreases remaining,
    {
        let ghost rem0: int = remaining as int;
        let ghost ticks0: int = ticks as int;
        let mut c: usize = 1;
        while c < incubation_time && remaining > 1
            invariant
                1 <= c,
                incubation_time >= 1 ==> c <= incubation_time,
                incubation_time == 0 ==> c == 1,
                remaining == rem0 - 2 * (c - 1),
                remaining >= 0,
                ticks == ticks0 + (c - 1),
                2 * (ticks - 1) + remaining <= init,
                init <= usize::MAX,
            decreases incubation_time - c,
        {
            remaining = remaining - 2;
            ticks = ticks + 1;
            c = c + 1;
        }
        proof {
            let steps = if incubation_time as int >= 1 {
                if incubation_time - 1 <= rem0 / 2 {
                    incubation_time - 1
                } else {
                    rem0 / 2
                }
            } else {
                0
            };
            assert(c - 1 == steps);
        }
        if remaining <= infection_radius + 1 {
            break ;
        }
        ticks = ticks + 1;
        remaining = remaining - (infection_radius + 2);
    }
    ticks
}

/// At the narrowest admissible halo, exactly one tick fits between syncs.
pub proof fn lemma_minimum_padding_one_tick(incubation_time: int, infection_radius: int)
    requires
        infection_radius >= 0,
    ensures
        1 + spec_extra_ticks((infection_radius + 2) - 2 - infection_radius, incubation_time,
            infection_radius) == 1,
{
}

} // verus!

