//! Compound rules: patterns over a stream of simple-rule completions.
//!
//! A compound rule watches the names of completed simple rules (and, for
//! streaks, the event date). Each full pass of its sequencing discipline
//! counts one `every`; when the counter reaches zero the rule completes and
//! uses up one iteration, otherwise its discipline is restored from the
//! snapshots and the pass counts as a hit.

use vstd::prelude::*;

use crate::outcome::{Advancing, AdvancingResult, AdvancingResultType};
use crate::scalar::Date;
use crate::simple_rule::sat_dec_i32;

verus! {

#[derive(Debug, PartialEq, Eq)]
pub enum CompoundRuleSeq {
    Any,
    All,
    Order,
    Streak(u32, Vec<Date>),
}

#[derive(Debug, PartialEq, Eq)]
pub struct CompoundRule {
    pub iterations: i32,
    pub every: u32,
    pub seq: CompoundRuleSeq,
    pub values: Vec<String>,
    pub og_iterations: i32,
    pub og_every: u32,
    pub og_seq: CompoundRuleSeq,
    pub og_values: Vec<String>,
}

pub struct NamedCompoundRule {
    pub name: String,
    pub rule: CompoundRule,
}

// ---------------------------------------------------------------------------
// Mathematical model
// ---------------------------------------------------------------------------

#[verifier::ext_equal]
pub ghost enum CompoundSeqModel {
    Any,
    All,
    Order,
    Streak(u32, Seq<Date>),
}

#[verifier::ext_equal]
pub ghost struct CompoundRuleModel {
    pub iterations: i32,
    pub every: u32,
    pub seq: CompoundSeqModel,
    pub values: Seq<Seq<char>>,
    pub og_iterations: i32,
    pub og_every: u32,
    pub og_seq: CompoundSeqModel,
    pub og_values: Seq<Seq<char>>,
}

impl View for CompoundRuleSeq {
    type V = CompoundSeqModel;

    open spec fn view(&self) -> CompoundSeqModel {
        match self {
            CompoundRuleSeq::Any => CompoundSeqModel::Any,
            CompoundRuleSeq::All => CompoundSeqModel::All,
            CompoundRuleSeq::Order => CompoundSeqModel::Order,
            CompoundRuleSeq::Streak(n, dates) => CompoundSeqModel::Streak(*n, dates@),
        }
    }
}

/// The views of a list of owned strings.
pub open spec fn str_seq_view(v: Seq<String>) -> Seq<Seq<char>> {
    Seq::new(v.len(), |i: int| v[i]@)
}

impl View for CompoundRule {
    type V = CompoundRuleModel;

    open spec fn view(&self) -> CompoundRuleModel {
        CompoundRuleModel {
            iterations: self.iterations,
            every: self.every,
            seq: self.seq@,
            values: str_seq_view(self.values@),
            og_iterations: self.og_iterations,
            og_every: self.og_every,
            og_seq: self.og_seq@,
            og_values: str_seq_view(self.og_values@),
        }
    }
}

/// Index of the first name equal to `name`, or -1.
pub open spec fn name_index_of(values: Seq<Seq<char>>, name: Seq<char>) -> int
    decreases values.len(),
{
    if values.len() <= 0 {
        -1
    } else if values[0] == name {
        0
    } else {
        let r = name_index_of(values.subrange(1, values.len() as int), name);
        if r == -1 {
            -1
        } else {
            1 + r
        }
    }
}

pub proof fn lemma_name_index_of_from_scan(values: Seq<Seq<char>>, name: Seq<char>, i: int)
    requires
        0 <= i <= values.len(),
        forall|j: int| 0 <= j < i ==> (#[trigger] values[j]) != name,
    ensures
        i < values.len() && values[i] == name ==> name_index_of(values, name) == i,
        i == values.len() ==> name_index_of(values, name) == -1,
        name_index_of(values, name) >= 0 ==> i <= name_index_of(values, name) < values.len(),
    decreases values.len(),
{
    if values.len() > 0 && values[0] != name {
        let tail = values.subrange(1, values.len() as int);
        assert forall|j: int| 0 <= j < i - 1 implies (#[trigger] tail[j]) != name by {
            assert(tail[j] == values[j + 1]);
        }
        lemma_name_index_of_from_scan(tail, name, if i > 0 {
            i - 1
        } else {
            0
        });
        if i < values.len() && values[i] == name {
            assert(tail[i - 1] == values[i]);
        }
    }
}

/// One advancement step of a date streak buffer holding plain dates; the
/// shape is the same as a simple rule's date streak, with plain equality as
/// the match.
pub open spec fn streak_dates_adv(dates: Seq<Date>, d: Date, n: u32) -> (
    Seq<Date>,
    AdvancingResultType,
    Option<int>,
) {
    if dates.len() == 0 {
        (dates, AdvancingResultType::Completed, None)
    } else if dates[0] == (Date { days: 0 }) || dates[0] == d {
        if dates.len() == 1 {
            (dates, AdvancingResultType::Completed, Some(0))
        } else {
            (dates.update(1, d.spec_next_day()), AdvancingResultType::Hit, Some(0))
        }
    } else {
        let refill = Seq::new(n as nat, |i: int| Date { days: 0 });
        if n >= 2 {
            (refill.update(1, d.spec_next_day()), AdvancingResultType::Hit, Some(0))
        } else {
            (refill, AdvancingResultType::Hit, Some(0))
        }
    }
}

/// The inner step of a compound rule: how its discipline reacts to one
/// completed simple-rule name (or, for streaks, to the event date alone).
pub open spec fn compound_inner_adv(
    seqm: CompoundSeqModel,
    values: Seq<Seq<char>>,
    name: Seq<char>,
    d: Date,
) -> (CompoundSeqModel, AdvancingResultType, Option<int>) {
    match seqm {
        CompoundSeqModel::Any => {
            if values.len() == 0 {
                (seqm, AdvancingResultType::Completed, None)
            } else if name_index_of(values, name) >= 0 {
                (seqm, AdvancingResultType::Completed, None)
            } else {
                (seqm, AdvancingResultType::Nothing, None)
            }
        },
        CompoundSeqModel::All => {
            if values.len() == 0 {
                (seqm, AdvancingResultType::Completed, None)
            } else {
                let i = name_index_of(values, name);
                if i >= 0 {
                    if values.len() == 1 {
                        (seqm, AdvancingResultType::Completed, Some(i))
                    } else {
                        (seqm, AdvancingResultType::Hit, Some(i))
                    }
                } else {
                    (seqm, AdvancingResultType::Nothing, None)
                }
            }
        },
        CompoundSeqModel::Order => {
            if values.len() == 0 {
                (seqm, AdvancingResultType::Completed, None)
            } else if values[0] == name {
                if values.len() == 1 {
                    (seqm, AdvancingResultType::Completed, Some(0))
                } else {
                    (seqm, AdvancingResultType::Hit, Some(0))
                }
            } else {
                (seqm, AdvancingResultType::Nothing, None)
            }
        },
        CompoundSeqModel::Streak(n, dates) => {
            let (dates2, t, dt) = streak_dates_adv(dates, d, n);
            (CompoundSeqModel::Streak(n, dates2), t, dt)
        },
    }
}

/// The raw advancement of a compound rule. A hit drops the consumed entry
/// (from the streak buffer for streaks, from the name list otherwise); a
/// full pass counts down `every`, completing — and using up one iteration —
/// when it reaches zero, and otherwise restoring the discipline from the
/// snapshots.
pub open spec fn compound_raw_adv(r: CompoundRuleModel, name: Seq<char>, d: Date) -> (
    CompoundRuleModel,
    AdvancingResultType,
) {
    let (s2, t, dt) = compound_inner_adv(r.seq, r.values, name, d);
    if t == AdvancingResultType::Nothing {
        (r, AdvancingResultType::Nothing)
    } else if t == AdvancingResultType::Hit {
        let r2 = match dt {
            Some(idx) => match s2 {
                CompoundSeqModel::Streak(n2, dates2) => CompoundRuleModel {
                    seq: if 0 <= idx < dates2.len() {
                        CompoundSeqModel::Streak(n2, dates2.remove(idx))
                    } else {
                        s2
                    },
                    ..r
                },
                _ => CompoundRuleModel {
                    seq: s2,
                    values: if 0 <= idx < r.values.len() {
                        r.values.remove(idx)
                    } else {
                        r.values
                    },
                    ..r
                },
            },
            None => CompoundRuleModel { seq: s2, ..r },
        };
        (r2, AdvancingResultType::Hit)
    } else {
        if r.every <= 1 {
            (
                CompoundRuleModel {
                    seq: s2,
                    every: 0,
                    iterations: sat_dec_i32(r.iterations),
                    ..r
                },
                AdvancingResultType::Completed,
            )
        } else {
            (
                CompoundRuleModel {
                    every: (r.every - 1) as u32,
                    seq: r.og_seq,
                    values: r.og_values,
                    ..r
                },
                AdvancingResultType::Hit,
            )
        }
    }
}

pub open spec fn compound_needs_reset(iterations: i32) -> bool {
    iterations != 0
}

/// Restores the mutable state from the snapshots; the remaining iteration
/// count is deliberately kept.
pub open spec fn compound_reset(r: CompoundRuleModel) -> CompoundRuleModel {
    CompoundRuleModel { every: r.og_every, seq: r.og_seq, values: r.og_values, ..r }
}

/// The composite advancement: a completion of a rule that still has
/// iterations left resets the rule and is reported as `Restarted`.
pub open spec fn compound_advance_full(r: CompoundRuleModel, name: Seq<char>, d: Date) -> (
    CompoundRuleModel,
    AdvancingResultType,
) {
    let (r2, t) = compound_raw_adv(r, name, d);
    if t == AdvancingResultType::Completed && compound_needs_reset(r2.iterations) {
        (compound_reset(r2), AdvancingResultType::Restarted)
    } else {
        (r2, t)
    }
}

// ---------------------------------------------------------------------------
// Executable level
// ---------------------------------------------------------------------------

/// Duplicates a list of owned strings, value for value.
pub fn clone_strings(v: &Vec<String>) -> (r: Vec<String>)
    ensures
        r@ =~= v@,
{
    let mut r: Vec<String> = Vec::new();
    let n = v.len();
    let mut i: usize = 0;
    while i < n
        invariant
            n == v@.len(),
            0 <= i <= n,
            r@ =~= v@.take(i as int),
        decreases n - i,
    {
        r.push(v[i].clone());
        proof {
            assert(v@.take(i as int + 1) =~= v@.take(i as int).push(v@[i as int]));
        }
        i += 1;
    }
    proof {
        assert(v@.take(n as int) =~= v@);
    }
    r
}

/// Duplicates a list of dates.
fn copy_dates(v: &Vec<Date>) -> (r: Vec<Date>)
    ensures
        r@ =~= v@,
{
    let mut r: Vec<Date> = Vec::new();
    let n = v.len();
    let mut i: usize = 0;
    while i < n
        invariant
            n == v@.len(),
            0 <= i <= n,
            r@ =~= v@.take(i as int),
        decreases n - i,
    {
        r.push(v[i]);
        proof {
            assert(v@.take(i as int + 1) =~= v@.take(i as int).push(v@[i as int]));
        }
        i += 1;
    }
    proof {
        assert(v@.take(n as int) =~= v@);
    }
    r
}

impl Clone for CompoundRuleSeq {
    fn clone(&self) -> (r: Self)
        ensures
            r@ == self@,
    {
        match self {
            CompoundRuleSeq::Any => CompoundRuleSeq::Any,
            CompoundRuleSeq::All => CompoundRuleSeq::All,
            CompoundRuleSeq::Order => CompoundRuleSeq::Order,
            CompoundRuleSeq::Streak(n, dates) => {
                let r = CompoundRuleSeq::Streak(*n, copy_dates(dates));
                proof {
                    assert(r@ =~~= self@);
                }
                r
            },
        }
    }
}

/// Finds the first entry equal to `name`.
fn find_name(values: &Vec<String>, name: &String) -> (r: Option<usize>)
    ensures
        match r {
            Some(i) => name_index_of(str_seq_view(values@), name@) == i as int && i < values@.len(),
            None => name_index_of(str_seq_view(values@), name@) == -1,
        },
{
    let n = values.len();
    let mut i: usize = 0;
    while i < n
        invariant
            n == values@.len(),
            0 <= i <= n,
            forall|j: int| 0 <= j < i ==> (#[trigger] str_seq_view(values@)[j]) != name@,
        decreases n - i,
    {
        if values[i] == *name {
            proof {
                lemma_name_index_of_from_scan(str_seq_view(values@), name@, i as int);
            }
            return Some(i);
        }
        assert(str_seq_view(values@)[i as int] != name@);
        i += 1;
    }
    proof {
        lemma_name_index_of_from_scan(str_seq_view(values@), name@, n as int);
    }
    None
}

impl CompoundRule {
    pub fn new(iterations: i32, every: u32, seq: CompoundRuleSeq, values: Vec<String>) -> (r: Self)
        ensures
            r@ == (CompoundRuleModel {
                iterations,
                every,
                seq: seq@,
                values: str_seq_view(values@),
                og_iterations: iterations,
                og_every: every,
                og_seq: seq@,
                og_values: str_seq_view(values@),
            }),
    {
        let og_seq = seq.clone();
        let og_values = clone_strings(&values);
        let r = CompoundRule {
            iterations,
            every,
            seq,
            values,
            og_iterations: iterations,
            og_every: every,
            og_seq,
            og_values,
        };
        proof {
            assert(str_seq_view(r.og_values@) =~= str_seq_view(r.values@));
        }
        r
    }

    pub fn needs_reset(&self) -> (r: bool)
        ensures
            r == compound_needs_reset(self@.iterations),
    {
        self.iterations != 0
    }

    /// Restores `every`, the discipline and the name list from the
    /// snapshots.
    pub fn reset(&mut self)
        ensures
            final(self)@ =~~= compound_reset(old(self)@),
    {
        self.every = self.og_every;
        self.seq = self.og_seq.clone();
        self.values = clone_strings(&self.og_values);
        proof {
            assert(str_seq_view(self.values@) =~= str_seq_view(self.og_values@));
        }
    }

    /// The raw advancement by one completed simple-rule name and the event
    /// date, as given by `compound_raw_adv`.
    pub fn raw_advance(&mut self, data: &(&String, Date)) -> (r: AdvancingResult<()>)
        ensures
            ({
                let (m2, t) = compound_raw_adv(old(self)@, data.0@, data.1);
                final(self)@ =~~= m2 && r.res_type == t && r.data is None
            }),
    {
        let name: &String = data.0;
        let d: Date = data.1;
        let inner: AdvancingResult<usize> = match &mut self.seq {
            CompoundRuleSeq::Any => {
                if self.values.len() == 0 {
                    AdvancingResult::completed(None)
                } else {
                    match find_name(&self.values, name) {
                        Some(_) => AdvancingResult::completed(None),
                        None => AdvancingResult::empty(),
                    }
                }
            },
            CompoundRuleSeq::All => {
                if self.values.len() == 0 {
                    AdvancingResult::completed(None)
                } else {
                    match find_name(&self.values, name) {
                        Some(i) => {
                            if self.values.len() == 1 {
                                AdvancingResult::completed(Some(i))
                            } else {
                                AdvancingResult::hit(Some(i))
                            }
                        },
                        None => AdvancingResult::empty(),
                    }
                }
            },
            CompoundRuleSeq::Order => {
                if self.values.len() == 0 {
                    AdvancingResult::completed(None)
                } else if self.values[0] == *name {
                    if self.values.len() == 1 {
                        AdvancingResult::completed(Some(0))
                    } else {
                        AdvancingResult::hit(Some(0))
                    }
                } else {
                    AdvancingResult::empty()
                }
            },
            CompoundRuleSeq::Streak(n, dates) => {
                let nv = *n;
                let len = dates.len();
                if len == 0 {
                    AdvancingResult::completed(None)
                } else if dates[0] == Date::epoch() || dates[0] == d {
                    if len == 1 {
                        AdvancingResult::completed(Some(0))
                    } else {
                        dates.remove(1);
                        dates.insert(1, d.next_day());
                        proof {
                            assert(dates@ =~= old(self).seq->Streak_1@.update(
                                1,
                                d.spec_next_day(),
                            ));
                        }
                        AdvancingResult::hit(Some(0))
                    }
                } else {
                    dates.clear();
                    let mut i: u32 = 0;
                    while i < nv
                        invariant
                            0 <= i <= nv,
                            dates@ =~= Seq::new(i as nat, |k: int| Date { days: 0 }),
                        decreases nv - i,
                    {
                        dates.push(Date::epoch());
                        proof {
                            assert(dates@ =~= Seq::new((i + 1) as nat, |k: int| Date { days: 0 }));
                        }
                        i += 1;
                    }
                    if nv >= 2 {
                        dates.remove(1);
                        dates.insert(1, d.next_day());
                        proof {
                            assert(dates@ =~= Seq::new(nv as nat, |k: int| Date { days: 0 }).update(
                                1,
                                d.spec_next_day(),
                            ));
                        }
                    }
                    AdvancingResult::hit(Some(0))
                }
            },
        };
        proof {
            let step = compound_inner_adv(old(self)@.seq, old(self)@.values, data.0@, data.1);
            assert(self@.seq =~~= step.0);
            assert(inner.res_type == step.1 && crate::simple_rule::opt_usize_int(inner.data)
                == step.2);
        }
        match inner.res_type {
            AdvancingResultType::Nothing => AdvancingResult::empty(),
            AdvancingResultType::Restarted => AdvancingResult::empty(),
            AdvancingResultType::Hit => {
                if let Some(idx) = inner.data {
                    match &mut self.seq {
                        CompoundRuleSeq::Streak(_, dates) => {
                            if idx < dates.len() {
                                dates.remove(idx);
                            }
                        },
                        _ => {
                            if idx < self.values.len() {
                                self.values.remove(idx);
                            }
                        },
                    }
                }
                AdvancingResult::hit(None)
            },
            AdvancingResultType::Completed => {
                if self.every <= 1 {
                    self.every = 0;
                    if self.iterations != i32::MIN {
                        self.iterations = self.iterations - 1;
                    }
                    AdvancingResult::completed(None)
                } else {
                    self.every = self.every - 1;
                    self.seq = self.og_seq.clone();
                    self.values = clone_strings(&self.og_values);
                    proof {
                        assert(str_seq_view(self.values@) =~= str_seq_view(self.og_values@));
                    }
                    AdvancingResult::hit(None)
                }
            },
        }
    }

    /// The composite advancement: a completion that left iterations behind
    /// resets the rule and is reported as `Restarted`.
    pub fn advance(&mut self, data: &(&String, Date)) -> (r: AdvancingResult<()>)
        ensures
            ({
                let (m2, t) = compound_advance_full(old(self)@, data.0@, data.1);
                final(self)@ =~~= m2 && r.res_type == t && r.data is None
            }),
    {
        let res = self.raw_advance(data);
        if res.res_type == AdvancingResultType::Completed && self.needs_reset() {
            self.reset();
            AdvancingResult::restarted(None)
        } else {
            res
        }
    }
}

impl NamedCompoundRule {
    pub fn new(name: String, rule: CompoundRule) -> (r: Self)
        ensures
            r.name@ == name@,
            r.rule@ == rule@,
    {
        NamedCompoundRule { name, rule }
    }
}

impl<'a> Advancing<(&'a String, Date), ()> for CompoundRule {
    fn raw_advance(&mut self, data: &(&'a String, Date)) -> AdvancingResult<()> {
        CompoundRule::raw_advance(self, data)
    }

    fn reset(&mut self) {
        CompoundRule::reset(self)
    }

    fn needs_reset(&self) -> bool {
        CompoundRule::needs_reset(self)
    }

    fn advance(&mut self, data: &(&'a String, Date)) -> AdvancingResult<()> {
        CompoundRule::advance(self, data)
    }
}

} // verus!
