use vstd::prelude::*;
use crate::render::ITERATION_LIMIT;

verus! {

/// The grey level of a pixel whose point escaped after `count` iterations,
/// or never did (`None`): 255 less the count, kept to one byte, and black for
/// a point that never escaped.
pub open spec fn shade_of(escape: Option<usize>) -> int {
    match escape {
        None => 0,
        Some(count) => 255 - (count as int) % 256,
    }
}

/// Within the iteration limit the count is not cut: the shade is 255 less
/// the count, a point that escapes sooner is brighter, and every point that
/// escapes is brighter than one that never does.
pub proof fn sooner_is_brighter(sooner: usize, later: usize)
    requires
        sooner < later < ITERATION_LIMIT,
    ensures
        shade_of(Some(sooner)) == 255 - sooner,
        shade_of(Some(later)) == 255 - later,
        shade_of(None) < shade_of(Some(later)) < shade_of(Some(sooner)) <= 255,
{
}

/// The grey level of a pixel, from the escape count of its point.
pub fn shade(escape: Option<usize>) -> (level: u8)
    ensures
        level as int == shade_of(escape),
{
    match escape {
        None => 0,
        Some(count) => 255 - ((count % 256) as u8),
    }
}

} // verus!
