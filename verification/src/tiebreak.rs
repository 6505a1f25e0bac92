//! Seeded choice among equally good moves.
//!
//! The generator is `rand`'s `SmallRng`, always seeded explicitly. Its
//! algorithm differs between platforms, so nothing is claimed about the
//! numbers it yields beyond their range; what is done with a drawn number is
//! proved for every number.

use vstd::prelude::*;
use rand::{Rng, SeedableRng};
use crate::rules::lines_of;

verus! {

/// `rand::rngs::SmallRng`, carried as it is: nothing is said of its state.
#[verifier::external_type_specification]
#[verifier::external_body]
pub struct ExSmallRng(rand::rngs::SmallRng);

/// `rand::SeedableRng::seed_from_u64`: a generator whose whole state comes
/// from `seed`.
#[verifier::external_body]
pub(crate) fn seeded_generator(seed: u64) -> (rng: rand::rngs::SmallRng) {
    rand::rngs::SmallRng::seed_from_u64(seed)
}

/// `rand::Rng::gen` at `u64`: the seed handed to the next search call.
#[verifier::external_body]
pub(crate) fn draw_seed(rng: &mut rand::rngs::SmallRng) -> (seed: u64) {
    rng.gen::<u64>()
}

/// `rand::Rng::gen_range` over `0..n`: a number below `n`. The range must
/// not be empty, or the call panics.
#[verifier::external_body]
pub(crate) fn draw_below(rng: &mut rand::rngs::SmallRng, n: usize) -> (k: usize)
    requires
        n > 0,
    ensures
        k < n,
{
    rng.gen_range(0..n)
}

/// The notation that a draw of `pick` selects: the `pick`-th candidate's.
pub open spec fn chosen(sans: Seq<Seq<char>>, candidates: Seq<usize>, pick: int) -> Seq<char> {
    sans[candidates[pick] as int]
}

/// Whether `text` is the notation of one of the candidates.
pub open spec fn is_candidate(
    text: Seq<char>,
    sans: Seq<Seq<char>>,
    candidates: Seq<usize>,
) -> bool {
    exists|k: int| 0 <= k < candidates.len() && text == #[trigger] chosen(sans, candidates, k)
}

/// Whether every candidate is the index of a move with a notation.
pub open spec fn candidates_in_range(candidates: Seq<usize>, moves: nat) -> bool {
    forall|k: int| 0 <= k < candidates.len() ==> (#[trigger] candidates[k]) < moves
}

/// Returns the notation of the `pick`-th candidate.
pub fn choose_move(sans: &Vec<String>, candidates: &Vec<usize>, pick: usize) -> (text: String)
    requires
        pick < candidates@.len(),
        candidates_in_range(candidates@, sans@.len()),
    ensures
        text@ == chosen(lines_of(sans@), candidates@, pick as int),
{
    sans[candidates[pick]].clone()
}

/// Draws one candidate with a generator seeded by `seed` and returns its
/// notation.
pub fn break_tie(sans: &Vec<String>, candidates: &Vec<usize>, seed: u64) -> (text: String)
    requires
        candidates@.len() > 0,
        candidates_in_range(candidates@, sans@.len()),
    ensures
        is_candidate(text@, lines_of(sans@), candidates@),
{
    let mut rng = seeded_generator(seed);
    let pick = draw_below(&mut rng, candidates.len());
    choose_move(sans, candidates, pick)
}

} // verus!
