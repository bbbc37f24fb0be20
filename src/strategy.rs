//! How calldata is drawn: a weighted choice between uniform generation and
//! generation biased by the dictionary.

use vstd::prelude::*;

verus! {

/// The generators that calldata is drawn from.
#[derive(Clone, Copy, Debug, PartialEq, Eq, Structural)]
pub enum StrategyKind {
    /// Each argument drawn over its whole type.
    Uniform,
    /// Each argument drawn from the dictionary where it can be.
    Dictionary,
}

/// The dictionary weight, at most 100.
pub open spec fn clamped_weight(dictionary_weight: u32) -> u32 {
    if dictionary_weight > 100 {
        100
    } else {
        dictionary_weight
    }
}

/// The weighted generators for a dictionary weight: uniform generation with
/// weight `100 - w` unless `w` is 100, dictionary generation with weight `w`
/// unless `w` is 0, where `w` is the weight clamped to 100.
pub open spec fn weights_of(dictionary_weight: u32) -> Seq<(u32, StrategyKind)> {
    let w = clamped_weight(dictionary_weight);
    let uniform = if w < 100 {
        seq![((100 - w) as u32, StrategyKind::Uniform)]
    } else {
        Seq::empty()
    };
    let dictionary = if w > 0 {
        seq![(w, StrategyKind::Dictionary)]
    } else {
        Seq::empty()
    };
    uniform + dictionary
}

/// The weighted generators that calldata is drawn from. None has weight
/// zero and there is at least one. A weight of 0 leaves the dictionary out;
/// a weight of 100 leaves uniform generation out.
pub fn strategy_weights(dictionary_weight: u32) -> (r: Vec<(u32, StrategyKind)>)
    ensures
        r@ == weights_of(dictionary_weight),
        r@.len() >= 1,
        forall|i: int| 0 <= i < r@.len() ==> (#[trigger] r@[i]).0 > 0,
        clamped_weight(dictionary_weight) == 0 ==> forall|i: int|
            0 <= i < r@.len() ==> (#[trigger] r@[i]).1 != StrategyKind::Dictionary,
        clamped_weight(dictionary_weight) == 100 ==> forall|i: int|
            0 <= i < r@.len() ==> (#[trigger] r@[i]).1 == StrategyKind::Dictionary,
{
    let w: u32 = if dictionary_weight > 100 {
        100
    } else {
        dictionary_weight
    };
    let mut r: Vec<(u32, StrategyKind)> = Vec::new();
    if w < 100 {
        r.push((100 - w, StrategyKind::Uniform));
    }
    if w > 0 {
        r.push((w, StrategyKind::Dictionary));
    }
    assert(r@ =~= weights_of(dictionary_weight));
    r
}

} // verus!
