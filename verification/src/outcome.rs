//! The uniform advancement contract shared by all three rule families:
//! advancing with one input yields one of four outcome tags and an optional
//! payload, and a rule that completes while iterations remain resets itself
//! and reports `Restarted` instead of `Completed`.

use vstd::prelude::*;

verus! {

#[derive(Clone, Copy, Debug, PartialEq, Eq, Structural)]
pub enum AdvancingResultType {
    Nothing,
    Hit,
    Restarted,
    Completed,
}

pub struct AdvancingResult<T> {
    pub res_type: AdvancingResultType,
    pub data: Option<T>,
}

impl<T> AdvancingResult<T> {
    pub fn completed(data: Option<T>) -> (r: Self)
        ensures
            r.res_type == AdvancingResultType::Completed,
            r.data == data,
    {
        Self::new(AdvancingResultType::Completed, data)
    }

    pub fn restarted(data: Option<T>) -> (r: Self)
        ensures
            r.res_type == AdvancingResultType::Restarted,
            r.data == data,
    {
        Self::new(AdvancingResultType::Restarted, data)
    }

    pub fn hit(data: Option<T>) -> (r: Self)
        ensures
            r.res_type == AdvancingResultType::Hit,
            r.data == data,
    {
        Self::new(AdvancingResultType::Hit, data)
    }

    pub fn empty() -> (r: Self)
        ensures
            r.res_type == AdvancingResultType::Nothing,
            r.data is None,
    {
        Self::new(AdvancingResultType::Nothing, None)
    }

    pub fn new(res_type: AdvancingResultType, data: Option<T>) -> (r: Self)
        ensures
            r.res_type == res_type,
            r.data == data,
    {
        Self { res_type, data }
    }
}

/// The advancement contract: `raw_advance` moves the rule by one input,
/// `reset` restores the mutable state from its snapshots, and `advance`
/// relabels a completion as `Restarted` when the rule still has iterations
/// left (`needs_reset`), resetting it on the way.
///
/// The exact behaviour of each method is stated on the inherent methods of
/// the implementing types, which these methods forward to.
pub trait Advancing<T, U>: Sized {
    fn raw_advance(&mut self, data: &T) -> AdvancingResult<U>;

    fn reset(&mut self);

    fn needs_reset(&self) -> bool;

    fn advance(&mut self, data: &T) -> AdvancingResult<U>;
}

} // verus!
