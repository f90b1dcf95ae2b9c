//! Rule results: the reactions fired when a rule of matching name
//! completes.
//!
//! A result is an ordered list of values; each value carries a kind (which
//! fixes the argument group size: 3 for an offer, 2 for a reward, 1
//! otherwise), a sequencing discipline over its argument list, and an
//! iteration marker that decides whether the value restarts after
//! completing. Advancing a result advances every value, hands back the
//! emitted `(kind, arguments)` pairs, and completes when every value
//! completed.

use vstd::prelude::*;

use crate::compound_rule::{clone_strings, str_seq_view};
use crate::outcome::{Advancing, AdvancingResult, AdvancingResultType};
use crate::sampler::{clamp, ora_at, sampler_after, scripted_remaining, Sampler, SamplerModel};

verus! {

#[derive(Clone, Copy, Debug, PartialEq, Eq, Structural)]
pub enum RuleResultSeq {
    All,
    Order,
    Random,
    RandomOnce,
    Choice,
}

#[derive(Clone, Copy, Debug, PartialEq, Eq, Structural)]
pub enum RuleResultKind {
    Message,
    Offer,
    Open,
    Restart,
    Reward,
}

#[derive(Debug, PartialEq, Eq)]
pub struct RuleResultValue {
    pub iterations: i32,
    pub kind: RuleResultKind,
    pub seq: RuleResultSeq,
    pub values: Vec<String>,
    pub og_values: Vec<String>,
}

#[derive(Debug, PartialEq, Eq)]
pub struct RuleResult {
    pub values: Vec<RuleResultValue>,
}

#[derive(Debug, PartialEq, Eq)]
pub struct NamedRuleResult {
    pub name: String,
    pub res: RuleResult,
}

// ---------------------------------------------------------------------------
// Mathematical model
// ---------------------------------------------------------------------------

#[verifier::ext_equal]
pub ghost struct RuleResultValueModel {
    pub iterations: i32,
    pub kind: RuleResultKind,
    pub seq: RuleResultSeq,
    pub values: Seq<Seq<char>>,
    pub og_values: Seq<Seq<char>>,
}

impl View for RuleResultValue {
    type V = RuleResultValueModel;

    open spec fn view(&self) -> RuleResultValueModel {
        RuleResultValueModel {
            iterations: self.iterations,
            kind: self.kind,
            seq: self.seq,
            values: str_seq_view(self.values@),
            og_values: str_seq_view(self.og_values@),
        }
    }
}

impl View for RuleResult {
    type V = Seq<RuleResultValueModel>;

    open spec fn view(&self) -> Seq<RuleResultValueModel> {
        Seq::new(self.values@.len(), |i: int| self.values@[i]@)
    }
}

/// How many arguments one emission of this kind consumes as a group.
pub open spec fn spec_group_size(k: RuleResultKind) -> int {
    match k {
        RuleResultKind::Offer => 3,
        RuleResultKind::Reward => 2,
        _ => 1,
    }
}

/// The emitted payload of one value advancement.
pub open spec fn value_needs_pick(v: RuleResultValueModel) -> bool {
    (v.seq == RuleResultSeq::Random || v.seq == RuleResultSeq::RandomOnce) && v.values.len()
        >= spec_group_size(v.kind)
}

/// One raw advancement of a result value, with `pick` (clamped into the
/// number of argument groups) choosing the group for the random
/// disciplines. `All` drains everything and always completes; `Order`
/// drains the first group and completes when nothing is left; `Random`
/// copies a group without draining and always completes; `RandomOnce`
/// drains the picked group and completes when nothing is left; `Choice`
/// copies everything and always completes. A random discipline whose
/// arguments cannot fill one group emits no arguments.
pub open spec fn value_raw_adv(v: RuleResultValueModel, pick: int) -> (
    RuleResultValueModel,
    AdvancingResultType,
    (RuleResultKind, Seq<Seq<char>>),
) {
    let g = spec_group_size(v.kind);
    let len = v.values.len() as int;
    match v.seq {
        RuleResultSeq::All => (
            RuleResultValueModel { values: Seq::empty(), ..v },
            AdvancingResultType::Completed,
            (v.kind, v.values),
        ),
        RuleResultSeq::Order => {
            let k = if g < len {
                g
            } else {
                len
            };
            let rest = v.values.skip(k);
            (
                RuleResultValueModel { values: rest, ..v },
                if rest.len() == 0 {
                    AdvancingResultType::Completed
                } else {
                    AdvancingResultType::Hit
                },
                (v.kind, v.values.take(k)),
            )
        },
        RuleResultSeq::Random => {
            if len >= g {
                let p = clamp(pick, 1, len / g);
                let start = (p - 1) * g;
                (v, AdvancingResultType::Completed, (v.kind, v.values.subrange(start, start + g)))
            } else {
                (v, AdvancingResultType::Completed, (v.kind, Seq::empty()))
            }
        },
        RuleResultSeq::RandomOnce => {
            if len >= g {
                let p = clamp(pick, 1, len / g);
                let start = (p - 1) * g;
                let rest = v.values.subrange(0, start) + v.values.subrange(start + g, len);
                (
                    RuleResultValueModel { values: rest, ..v },
                    if rest.len() == 0 {
                        AdvancingResultType::Completed
                    } else {
                        AdvancingResultType::Hit
                    },
                    (v.kind, v.values.subrange(start, start + g)),
                )
            } else {
                (
                    v,
                    if len == 0 {
                        AdvancingResultType::Completed
                    } else {
                        AdvancingResultType::Hit
                    },
                    (v.kind, Seq::empty()),
                )
            }
        },
        RuleResultSeq::Choice => (v, AdvancingResultType::Completed, (v.kind, v.values)),
    }
}

pub open spec fn value_needs_reset(iterations: i32) -> bool {
    iterations == -1
}

/// The composite advancement of a result value: a completion of a value
/// marked to repeat forever restores its arguments and is reported as
/// `Restarted`.
pub open spec fn value_adv_full(v: RuleResultValueModel, pick: int) -> (
    RuleResultValueModel,
    AdvancingResultType,
    (RuleResultKind, Seq<Seq<char>>),
) {
    let (v2, t, data) = value_raw_adv(v, pick);
    if t == AdvancingResultType::Completed && value_needs_reset(v2.iterations) {
        (
            RuleResultValueModel { values: v2.og_values, ..v2 },
            AdvancingResultType::Restarted,
            data,
        )
    } else {
        (v2, t, data)
    }
}

/// How many picks the first `j` values of a result draw when advanced.
pub open spec fn count_picks(vals: Seq<RuleResultValueModel>, j: int) -> int
    decreases j,
{
    if j <= 0 || j > vals.len() {
        0
    } else {
        count_picks(vals, j - 1) + if value_needs_pick(vals[j - 1]) {
            1int
        } else {
            0int
        }
    }
}

/// Advancing the first `j` values of a result, drawing picks from `ora` in
/// order: the values after, the emitted payloads, whether all of them
/// completed, and how many picks were drawn.
pub open spec fn result_adv_prefix(vals: Seq<RuleResultValueModel>, ora: Seq<int>, j: int) -> (
    Seq<RuleResultValueModel>,
    Seq<(RuleResultKind, Seq<Seq<char>>)>,
    bool,
    int,
)
    decreases j,
{
    if j <= 0 || j > vals.len() {
        (vals, Seq::empty(), true, 0)
    } else {
        let prev = result_adv_prefix(vals, ora, j - 1);
        let v = vals[j - 1];
        let needs = value_needs_pick(v);
        let pick = if needs {
            ora_at(ora, prev.3)
        } else {
            1
        };
        let k1 = if needs {
            prev.3 + 1
        } else {
            prev.3
        };
        let (v2, t, data) = value_adv_full(v, pick);
        (
            prev.0.update(j - 1, v2),
            prev.1.push(data),
            prev.2 && t == AdvancingResultType::Completed,
            k1,
        )
    }
}

/// The advancement of a whole result: all values advanced in order, the
/// payloads gathered, `Completed` exactly when every value completed.
pub open spec fn result_adv(vals: Seq<RuleResultValueModel>, ora: Seq<int>) -> (
    Seq<RuleResultValueModel>,
    Seq<(RuleResultKind, Seq<Seq<char>>)>,
    AdvancingResultType,
    int,
) {
    let p = result_adv_prefix(vals, ora, vals.len() as int);
    (
        p.0,
        p.1,
        if p.2 {
            AdvancingResultType::Completed
        } else {
            AdvancingResultType::Hit
        },
        p.3,
    )
}

pub proof fn lemma_prefix_consumed(vals: Seq<RuleResultValueModel>, ora: Seq<int>, j: int)
    ensures
        result_adv_prefix(vals, ora, j).3 == count_picks(vals, j),
        count_picks(vals, j) >= 0,
    decreases j,
{
    if j > 0 && j <= vals.len() {
        lemma_prefix_consumed(vals, ora, j - 1);
    }
}

/// Advancing a prefix never looks past the picks it draws: extending the
/// oracle beyond them changes nothing.
pub proof fn lemma_prefix_extend(
    vals: Seq<RuleResultValueModel>,
    ora: Seq<int>,
    ext: Seq<int>,
    j: int,
)
    requires
        count_picks(vals, j) <= ora.len(),
    ensures
        result_adv_prefix(vals, ora + ext, j) == result_adv_prefix(vals, ora, j),
    decreases j,
{
    if j > 0 && j <= vals.len() {
        lemma_prefix_consumed(vals, ora, j - 1);
        lemma_prefix_extend(vals, ora, ext, j - 1);
        lemma_prefix_consumed(vals, ora + ext, j - 1);
        if value_needs_pick(vals[j - 1]) {
            assert(ora_at(ora + ext, count_picks(vals, j - 1)) == ora_at(
                ora,
                count_picks(vals, j - 1),
            ));
        }
    }
}

/// The whole-result advancement draws exactly `count_picks` picks, however
/// the oracle reads.
pub proof fn lemma_result_adv_consumed(vals: Seq<RuleResultValueModel>, ora: Seq<int>)
    ensures
        result_adv(vals, ora).3 == count_picks(vals, vals.len() as int),
        result_adv(vals, ora).3 >= 0,
{
    lemma_prefix_consumed(vals, ora, vals.len() as int);
}

/// The whole-result advancement never looks past the picks it draws.
pub proof fn lemma_result_adv_extend(vals: Seq<RuleResultValueModel>, ora: Seq<int>, ext: Seq<int>)
    requires
        result_adv(vals, ora).3 <= ora.len(),
    ensures
        result_adv(vals, ora + ext) == result_adv(vals, ora),
{
    lemma_prefix_consumed(vals, ora, vals.len() as int);
    lemma_prefix_extend(vals, ora, ext, vals.len() as int);
}

pub open spec fn rdata_view(o: Option<(RuleResultKind, Vec<String>)>) -> Option<
    (RuleResultKind, Seq<Seq<char>>),
> {
    match o {
        Some(p) => Some((p.0, str_seq_view(p.1@))),
        None => None,
    }
}

pub open spec fn datas_view(c: Seq<(RuleResultKind, Vec<String>)>) -> Seq<
    (RuleResultKind, Seq<Seq<char>>),
> {
    Seq::new(c.len(), |i: int| (c[i].0, str_seq_view(c[i].1@)))
}

/// One result value advanced against a sampler: the outcome is explained by
/// the pick `pick`, the sampler moved one step, and a scripted sampler's
/// pick is its next script entry.
pub open spec fn value_step_ok(
    pre: RuleResultValueModel,
    s0: SamplerModel,
    post: RuleResultValueModel,
    t: AdvancingResultType,
    data: (RuleResultKind, Seq<Seq<char>>),
    s1: SamplerModel,
    pick: int,
) -> bool {
    let (v2, tt, dd) = value_adv_full(pre, pick);
    &&& post == v2
    &&& t == tt
    &&& data == dd
    &&& s1 == sampler_after(s0, 1)
    &&& (s0 is Scripted ==> pick == ora_at(scripted_remaining(s0), 0))
}

/// A whole result advanced against a sampler: the outcome is explained by
/// the pick oracle `ora`, the sampler moved by as many picks as were drawn,
/// and a scripted sampler's oracle is its script.
pub open spec fn result_step_ok(
    pre: Seq<RuleResultValueModel>,
    s0: SamplerModel,
    post: Seq<RuleResultValueModel>,
    ds: Seq<(RuleResultKind, Seq<Seq<char>>)>,
    t: AdvancingResultType,
    s1: SamplerModel,
    ora: Seq<int>,
) -> bool {
    let (v2, dd, tt, k) = result_adv(pre, ora);
    &&& post == v2
    &&& ds == dd
    &&& t == tt
    &&& ora.len() == k
    &&& s1 == sampler_after(s0, k)
    &&& (s0 is Scripted ==> ora =~= Seq::new(
        ora.len(),
        |m: int| ora_at(scripted_remaining(s0), m),
    ))
}

// ---------------------------------------------------------------------------
// Executable level
// ---------------------------------------------------------------------------

/// Copies of the `len` entries starting at `start`.
fn clone_range(v: &Vec<String>, start: usize, len: usize) -> (r: Vec<String>)
    requires
        start + len <= v@.len(),
    ensures
        str_seq_view(r@) =~= str_seq_view(v@).subrange(start as int, start as int + len as int),
{
    let mut r: Vec<String> = Vec::new();
    let vlen = v.len();
    let mut i: usize = 0;
    while i < len
        invariant
            vlen == v@.len(),
            start + len <= vlen,
            0 <= i <= len,
            r@ =~= v@.subrange(start as int, start as int + i as int),
        decreases len - i,
    {
        r.push(v[start + i].clone());
        proof {
            assert(v@.subrange(start as int, start as int + i as int + 1) =~= v@.subrange(
                start as int,
                start as int + i as int,
            ).push(v@[start as int + i as int]));
        }
        i += 1;
    }
    proof {
        assert(str_seq_view(r@) =~= str_seq_view(v@).subrange(
            start as int,
            start as int + len as int,
        ));
    }
    r
}

impl RuleResultValue {
    pub fn new(
        iterations: i32,
        kind: RuleResultKind,
        seq: RuleResultSeq,
        values: Vec<String>,
    ) -> (r: Self)
        ensures
            r@ == (RuleResultValueModel {
                iterations,
                kind,
                seq,
                values: str_seq_view(values@),
                og_values: str_seq_view(values@),
            }),
    {
        let og_values = clone_strings(&values);
        let r = RuleResultValue { iterations, kind, seq, values, og_values };
        proof {
            assert(str_seq_view(r.og_values@) =~= str_seq_view(r.values@));
        }
        r
    }

    /// The argument group size of this value's kind.
    pub fn group_size(&self) -> (r: usize)
        ensures
            r as int == spec_group_size(self@.kind),
    {
        match self.kind {
            RuleResultKind::Offer => 3,
            RuleResultKind::Reward => 2,
            _ => 1,
        }
    }

    /// A value marked to repeat forever asks to be reset on completion.
    pub fn needs_reset(&self) -> (r: bool)
        ensures
            r == value_needs_reset(self@.iterations),
    {
        self.iterations == -1
    }

    /// Restores the argument list from the immutable snapshot.
    pub fn reset(&mut self)
        ensures
            final(self)@ == (RuleResultValueModel {
                values: old(self)@.og_values,
                ..old(self)@
            }),
    {
        self.values = clone_strings(&self.og_values);
        proof {
            assert(str_seq_view(self.values@) =~= str_seq_view(self.og_values@));
        }
    }

    /// How many whole argument groups are left.
    fn groups(&self) -> (r: usize)
        ensures
            r as int == self@.values.len() as int / spec_group_size(self@.kind),
    {
        let len = self.values.len();
        match self.kind {
            RuleResultKind::Offer => len / 3,
            RuleResultKind::Reward => len / 2,
            _ => len,
        }
    }

    /// The composite advancement of this value with an explicit pick.
    pub fn advance_with_pick(&mut self, pick: usize) -> (r: AdvancingResult<
        (RuleResultKind, Vec<String>),
    >)
        ensures
            ({
                let (v2, t, data) = value_adv_full(old(self)@, pick as int);
                &&& final(self)@ =~~= v2
                &&& r.res_type == t
                &&& rdata_view(r.data) == Some(data)
            }),
    {
        let g = self.group_size();
        let len = self.values.len();
        let kind = self.kind;
        let args: Vec<String> = match self.seq {
            RuleResultSeq::All => {
                let drained = clone_strings(&self.values);
                self.values = Vec::new();
                proof {
                    assert(str_seq_view(self.values@) =~= Seq::<Seq<char>>::empty());
                }
                drained
            },
            RuleResultSeq::Order => {
                let k = if g < len {
                    g
                } else {
                    len
                };
                let mut tail = self.values.split_off(k);
                let head = self.values.split_off(0);
                self.values.append(&mut tail);
                proof {
                    assert(str_seq_view(self.values@) =~= str_seq_view(old(self).values@).skip(
                        k as int,
                    ));
                    assert(str_seq_view(head@) =~= str_seq_view(old(self).values@).take(k as int));
                }
                head
            },
            RuleResultSeq::Random => {
                if len >= g {
                    let groups = self.groups();
                    let p = if pick < 1 {
                        1
                    } else if pick > groups {
                        groups
                    } else {
                        pick
                    };
                    let start = group_start(kind, p, len);
                    clone_range(&self.values, start, g)
                } else {
                    Vec::new()
                }
            },
            RuleResultSeq::RandomOnce => {
                if len >= g {
                    let groups = self.groups();
                    let p = if pick < 1 {
                        1
                    } else if pick > groups {
                        groups
                    } else {
                        pick
                    };
                    let start = group_start(kind, p, len);
                    let mut tail = self.values.split_off(start + g);
                    let removed = self.values.split_off(start);
                    self.values.append(&mut tail);
                    proof {
                        let pre = str_seq_view(old(self).values@);
                        assert(str_seq_view(self.values@) =~= pre.subrange(0, start as int)
                            + pre.subrange(start as int + g as int, len as int));
                        assert(str_seq_view(removed@) =~= pre.subrange(
                            start as int,
                            start as int + g as int,
                        ));
                    }
                    removed
                } else {
                    Vec::new()
                }
            },
            RuleResultSeq::Choice => clone_strings(&self.values),
        };
        let completed = match self.seq {
            RuleResultSeq::All | RuleResultSeq::Random | RuleResultSeq::Choice => true,
            RuleResultSeq::Order | RuleResultSeq::RandomOnce => self.values.is_empty(),
        };
        if completed {
            if self.needs_reset() {
                self.reset();
                AdvancingResult::restarted(Some((kind, args)))
            } else {
                AdvancingResult::completed(Some((kind, args)))
            }
        } else {
            AdvancingResult::hit(Some((kind, args)))
        }
    }

    /// The composite advancement of this value, drawing any needed pick
    /// from the sampler. The second component records, for the proof, which
    /// pick explains the outcome.
    pub fn advance_sampled(&mut self, s: &mut Sampler) -> (r: (
        AdvancingResult<(RuleResultKind, Vec<String>)>,
        Ghost<int>,
    ))
        ensures
            r.0.data is Some,
            value_needs_pick(old(self)@) ==> value_step_ok(
                old(self)@,
                old(s)@,
                final(self)@,
                r.0.res_type,
                rdata_view(r.0.data)->0,
                final(s)@,
                r.1@,
            ),
            !value_needs_pick(old(self)@) ==> ({
                let (v2, t, data) = value_adv_full(old(self)@, 1);
                &&& final(self)@ =~~= v2
                &&& r.0.res_type == t
                &&& rdata_view(r.0.data) == Some(data)
                &&& final(s)@ == old(s)@
            }),
    {
        let g = self.group_size();
        let len = self.values.len();
        let needs = (self.seq == RuleResultSeq::Random || self.seq == RuleResultSeq::RandomOnce)
            && len >= g;
        if needs {
            let groups = self.groups();
            let ghost s0 = s@;
            let p = s.next(groups);
            let res = self.advance_with_pick(p);
            let ghost raw: int = if s0 is Scripted {
                ora_at(scripted_remaining(s0), 0)
            } else {
                p as int
            };
            proof {
                assert(value_adv_full(old(self)@, raw) == value_adv_full(old(self)@, p as int));
            }
            (res, Ghost(raw))
        } else {
            let res = self.advance_with_pick(1);
            (res, Ghost(1int))
        }
    }
}

/// Start of the argument group that pick `p` selects.
fn group_start(kind: RuleResultKind, p: usize, len: usize) -> (r: usize)
    requires
        1 <= p,
        p as int <= len as int / spec_group_size(kind),
    ensures
        r as int == (p - 1) * spec_group_size(kind),
        r + spec_group_size(kind) <= len,
{
    match kind {
        RuleResultKind::Offer => (p - 1) * 3,
        RuleResultKind::Reward => (p - 1) * 2,
        _ => p - 1,
    }
}

impl RuleResult {
    pub fn new(values: Vec<RuleResultValue>) -> (r: Self)
        ensures
            r@ =~= Seq::new(values@.len(), |i: int| values@[i]@),
    {
        RuleResult { values }
    }

    /// A result never asks to be reset as a whole; its values reset
    /// themselves.
    pub fn needs_reset(&self) -> (r: bool)
        ensures
            r == false,
    {
        false
    }

    /// Advances every contained value in order, drawing picks from the
    /// sampler, and completes exactly when every value completed. The second
    /// component records, for the proof, the pick oracle that explains the
    /// outcome.
    pub fn advance_sampled(&mut self, s: &mut Sampler) -> (r: (
        AdvancingResult<Vec<(RuleResultKind, Vec<String>)>>,
        Ghost<Seq<int>>,
    ))
        ensures
            r.0.data is Some,
            result_step_ok(
                old(self)@,
                old(s)@,
                final(self)@,
                datas_view(r.0.data->0@),
                r.0.res_type,
                final(s)@,
                r.1@,
            ),
    {
        let ghost pre = self@;
        let ghost s0 = s@;
        let n = self.values.len();
        let mut datas: Vec<(RuleResultKind, Vec<String>)> = Vec::new();
        let mut all = true;
        let ghost mut ora: Seq<int> = Seq::empty();
        let mut j: usize = 0;
        while j < n
            invariant
                n == pre.len(),
                n == self.values@.len(),
                0 <= j <= n,
                ({
                    let p = result_adv_prefix(pre, ora, j as int);
                    &&& self@ =~~= p.0
                    &&& datas_view(datas@) =~~= p.1
                    &&& all == p.2
                    &&& ora.len() == p.3
                }),
                s@ == sampler_after(s0, ora.len() as int),
                s0 is Scripted ==> s0->Scripted_1 >= 0,
                s0 is Scripted ==> ora =~= Seq::new(
                    ora.len(),
                    |m: int| ora_at(scripted_remaining(s0), m),
                ),
                forall|q: int| j <= q < n ==> (#[trigger] self@[q]) == pre[q],
            decreases n - j,
        {
            let ghost s_pre = s@;
            let ghost ora_pre = ora;
            let ghost k_pre = ora.len() as int;
            let ghost v_pre = self@[j as int];
            let ghost before = self@;
            proof {
                lemma_prefix_consumed(pre, ora, j as int);
                assert(v_pre == pre[j as int]);
            }
            let (res, pick_g) = {
                let v = &mut self.values[j];
                v.advance_sampled(s)
            };
            proof {
                assert forall|q: int| 0 <= q < n && q != j as int implies (#[trigger] self@[q])
                    == before[q] by {}
            }
            let completed_here = res.res_type == AdvancingResultType::Completed;
            let data = match res.data {
                Some(d) => d,
                None => (RuleResultKind::Message, Vec::new()),
            };
            proof {
                if value_needs_pick(v_pre) {
                    let pick = pick_g@;
                    assert(value_step_ok(
                        v_pre,
                        s_pre,
                        self@[j as int],
                        res.res_type,
                        rdata_view(res.data)->0,
                        s@,
                        pick,
                    ));
                    ora = ora.push(pick);
                    lemma_prefix_extend(pre, ora_pre, seq![pick], j as int);
                    assert(ora_pre + seq![pick] =~= ora);
                    assert(ora_at(ora, k_pre) == pick);
                    assert(s@ == sampler_after(sampler_after(s0, k_pre), 1));
                    assert(sampler_after(sampler_after(s0, k_pre), 1) == sampler_after(
                        s0,
                        k_pre + 1,
                    ));
                    if s0 is Scripted {
                        assert(s_pre == sampler_after(s0, k_pre));
                        assert(s_pre is Scripted);
                        assert(pick == ora_at(scripted_remaining(s_pre), 0));
                        crate::sampler::lemma_remaining_after(s0, k_pre, 0);
                        assert(ora =~= Seq::new(
                            ora.len(),
                            |m: int| ora_at(scripted_remaining(s0), m),
                        ));
                    }
                } else {
                    lemma_prefix_extend(pre, ora_pre, Seq::empty(), j as int);
                    assert(ora_pre + Seq::<int>::empty() =~= ora_pre);
                }
                assert(datas_view(datas@.push((data.0, data.1))) =~= datas_view(datas@).push(
                    (data.0, str_seq_view(data.1@)),
                ));
            }
            datas.push(data);
            if !completed_here {
                all = false;
            }
            j += 1;
        }
        let out = if all {
            AdvancingResult::completed(Some(datas))
        } else {
            AdvancingResult::hit(Some(datas))
        };
        proof {
            assert(result_step_ok(
                old(self)@,
                old(s)@,
                self@,
                datas_view(out.data->0@),
                out.res_type,
                s@,
                ora,
            ));
        }
        (out, Ghost(ora))
    }
}

impl NamedRuleResult {
    pub fn new(name: String, res: RuleResult) -> (r: Self)
        ensures
            r.name@ == name@,
            r.res@ == res@,
    {
        NamedRuleResult { name, res }
    }
}

impl Advancing<(), (RuleResultKind, Vec<String>)> for RuleResultValue {
    fn raw_advance(&mut self, _data: &()) -> AdvancingResult<(RuleResultKind, Vec<String>)> {
        let mut s = Sampler::System;
        RuleResultValue::advance_sampled(self, &mut s).0
    }

    fn reset(&mut self) {
        RuleResultValue::reset(self)
    }

    fn needs_reset(&self) -> bool {
        RuleResultValue::needs_reset(self)
    }

    fn advance(&mut self, _data: &()) -> AdvancingResult<(RuleResultKind, Vec<String>)> {
        let mut s = Sampler::System;
        RuleResultValue::advance_sampled(self, &mut s).0
    }
}

impl Advancing<(), Vec<(RuleResultKind, Vec<String>)>> for RuleResult {
    fn raw_advance(&mut self, _data: &()) -> AdvancingResult<Vec<(RuleResultKind, Vec<String>)>> {
        let mut s = Sampler::System;
        RuleResult::advance_sampled(self, &mut s).0
    }

    fn reset(&mut self) {
    }

    fn needs_reset(&self) -> bool {
        RuleResult::needs_reset(self)
    }

    fn advance(&mut self, _data: &()) -> AdvancingResult<Vec<(RuleResultKind, Vec<String>)>> {
        let mut s = Sampler::System;
        RuleResult::advance_sampled(self, &mut s).0
    }
}

} // verus!
