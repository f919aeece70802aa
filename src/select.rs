//! Picking one assignee among the candidates.
use vstd::prelude::*;
use crate::text::views;

verus! {

/// Relies on `rand::Rng::gen_range` over `0..len` with the thread's
/// generator: an index below `len`; it panics on an empty range.
#[verifier::external_body]
fn random_index(len: usize) -> (r: usize)
    requires
        len > 0,
    ensures
        r < len,
{
    rand::Rng::gen_range(&mut rand::thread_rng(), 0..len)
}

/// The candidate at `index`: selection with an index drawn by the caller,
/// for instance from a seeded generator.
pub fn pick_at(candidates: &Vec<String>, index: usize) -> (r: String)
    requires
        index < candidates@.len(),
    ensures
        r@ == candidates@[index as int]@,
        views(candidates@).contains(r@),
{
    let r = candidates[index].clone();
    assert(views(candidates@)[index as int] == r@);
    r
}

/// A uniformly random member of `candidates`.
pub fn choose_reviewer(candidates: &Vec<String>) -> (r: String)
    requires
        candidates@.len() > 0,
    ensures
        views(candidates@).contains(r@),
{
    pick_at(candidates, random_index(candidates.len()))
}

} // verus!
