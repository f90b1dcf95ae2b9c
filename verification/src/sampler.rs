//! The uniform sampler behind `random` and `random_once` result
//! sequencing.
//!
//! The engine draws every random pick through a `Sampler` value, so a host
//! can inject a scripted sampler and replay an update deterministically; the
//! system sampler delegates to the process-wide random number generator.

use vstd::prelude::*;

verus! {

pub enum Sampler {
    /// Draws from the process-wide random number generator.
    System,
    /// Replays a fixed script of picks (clamped into each requested range),
    /// starting at the given position; an exhausted script answers 1.
    Scripted(Vec<usize>, usize),
}

#[verifier::ext_equal]
pub ghost enum SamplerModel {
    System,
    Scripted(Seq<int>, int),
}

impl View for Sampler {
    type V = SamplerModel;

    open spec fn view(&self) -> SamplerModel {
        match self {
            Sampler::System => SamplerModel::System,
            Sampler::Scripted(sc, pos) => SamplerModel::Scripted(
                Seq::new(sc@.len(), |i: int| sc@[i] as int),
                *pos as int,
            ),
        }
    }
}

/// Entry `k` of a pick oracle; an exhausted oracle keeps answering 1.
pub open spec fn ora_at(ora: Seq<int>, k: int) -> int {
    if 0 <= k < ora.len() {
        ora[k]
    } else {
        1
    }
}

pub open spec fn clamp(x: int, lo: int, hi: int) -> int {
    if x < lo {
        lo
    } else if x > hi {
        hi
    } else {
        x
    }
}

/// What remains of a scripted sampler's script; the system sampler scripts
/// nothing.
pub open spec fn scripted_remaining(s: SamplerModel) -> Seq<int> {
    match s {
        SamplerModel::Scripted(sc, pos) => if 0 <= pos <= sc.len() {
            sc.skip(pos)
        } else {
            Seq::empty()
        },
        SamplerModel::System => Seq::empty(),
    }
}

pub open spec fn scripted_pos_after(pos: int, len: int, k: int) -> int {
    if pos <= len {
        if pos + k <= len {
            pos + k
        } else {
            len
        }
    } else {
        pos
    }
}

/// The sampler's state after `k` picks were drawn from it.
pub open spec fn sampler_after(s: SamplerModel, k: int) -> SamplerModel {
    match s {
        SamplerModel::System => SamplerModel::System,
        SamplerModel::Scripted(sc, pos) => SamplerModel::Scripted(
            sc,
            scripted_pos_after(pos, sc.len() as int, k),
        ),
    }
}

/// Looking `k` picks ahead in a sampler and then reading entry `m` is the
/// same as reading entry `k + m` now.
pub proof fn lemma_remaining_after(s0: SamplerModel, k: int, m: int)
    requires
        k >= 0,
        m >= 0,
        s0 is Scripted ==> s0->Scripted_1 >= 0,
    ensures
        ora_at(scripted_remaining(sampler_after(s0, k)), m) == ora_at(scripted_remaining(s0), k + m),
{
    if s0 is Scripted {
        let sc = s0->Scripted_0;
        let pos = s0->Scripted_1;
        if pos <= sc.len() {
            if pos + k + m < sc.len() {
                assert(scripted_remaining(sampler_after(s0, k)) =~= sc.skip(
                    scripted_pos_after(pos, sc.len() as int, k),
                ));
                assert(sc.skip(pos + k)[m] == sc[pos + k + m]);
                assert(sc.skip(pos)[k + m] == sc[pos + k + m]);
            } else {
                assert(scripted_remaining(sampler_after(s0, k)).len() <= m);
            }
        }
    }
}

/// Drawing `a` picks and then `b` picks moves the sampler as far as drawing
/// `a + b` picks at once.
pub proof fn lemma_sampler_after_add(s0: SamplerModel, a: int, b: int)
    requires
        a >= 0,
        b >= 0,
    ensures
        sampler_after(sampler_after(s0, a), b) == sampler_after(s0, a + b),
{
}

/// Relies on rand's `random_range`, which returns a uniformly distributed
/// sample of the given range and panics only when the range is empty.
#[verifier::external_body]
fn random_in_range(n: usize) -> (r: usize)
    requires
        n >= 1,
    ensures
        1 <= r <= n,
{
    rand::random_range(1..=n)
}

impl Sampler {
    /// Draws one pick from 1 to `n`. A scripted sampler answers with its
    /// next script entry clamped into the range (or 1 when exhausted) and
    /// moves on; the system sampler draws from the random number generator.
    pub fn next(&mut self, n: usize) -> (r: usize)
        requires
            n >= 1,
        ensures
            1 <= r <= n,
            final(self)@ == sampler_after(old(self)@, 1),
            old(self)@ is Scripted ==> r as int == clamp(
                ora_at(scripted_remaining(old(self)@), 0),
                1,
                n as int,
            ),
    {
        match self {
            Sampler::System => random_in_range(n),
            Sampler::Scripted(script, pos) => {
                if *pos < script.len() {
                    let raw = script[*pos];
                    *pos = *pos + 1;
                    if raw < 1 {
                        1
                    } else if raw > n {
                        n
                    } else {
                        raw
                    }
                } else {
                    1
                }
            },
        }
    }
}

} // verus!
