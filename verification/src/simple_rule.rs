//! Simple rules: patterns over the parts of a single event.
//!
//! A simple rule keeps, per part name, an ordered list of residual value
//! constraints together with a sequencing discipline (`Any`, `All`, `Order`,
//! and for dates `Streak` and `Selected`). Advancing the rule with an event
//! matches each event part against the corresponding rule part, short
//! circuits to no outcome when any part fails, completes when every part is
//! satisfied, and otherwise records a hit and drops the matched values.

use vstd::prelude::*;

use crate::event::{Event, EventPartValue};
use crate::named_map::{nm_index_of, NamedMap};
use crate::outcome::{Advancing, AdvancingResult, AdvancingResultType};
use crate::scalar::{Date, PartScalar, Time};

verus! {

#[derive(Clone, Copy, Debug, PartialEq, Eq, Structural)]
pub enum SimpleRuleSeq {
    Any,
    All,
    Order,
    Streak(u32),
    Selected(u8),
}

#[derive(Clone, Copy, Debug, PartialEq, Eq, Structural)]
pub enum SimpleRuleBorder {
    Exact,
    Less,
    LessEq,
    Greater,
    GreaterEq,
    Between,
}

#[derive(Clone, Copy, Debug, PartialEq, Eq)]
pub struct SimpleRulePartValue<T> {
    pub border: SimpleRuleBorder,
    pub left_val: T,
    pub right_val: Option<T>,
}

#[derive(Debug, PartialEq, Eq)]
pub struct SimpleRulePart<T> {
    pub seq: SimpleRuleSeq,
    pub values: Vec<SimpleRulePartValue<T>>,
    pub og_values: Vec<SimpleRulePartValue<T>>,
}

#[derive(Debug, PartialEq, Eq)]
pub enum WrappedSimpleRulePart {
    Number(SimpleRulePart<u32>),
    Time(SimpleRulePart<Time>),
    Date(SimpleRulePart<Date>),
}

pub struct SimpleRule {
    pub iterations: i32,
    pub parts: NamedMap<WrappedSimpleRulePart>,
}

pub struct NamedSimpleRule {
    pub name: String,
    pub rule: SimpleRule,
}

// ---------------------------------------------------------------------------
// Mathematical model
// ---------------------------------------------------------------------------

#[verifier::ext_equal]
pub ghost struct PartModel<T> {
    pub seq: SimpleRuleSeq,
    pub values: Seq<SimpleRulePartValue<T>>,
    pub og_values: Seq<SimpleRulePartValue<T>>,
}

#[verifier::ext_equal]
pub ghost enum WrappedPartModel {
    Number(PartModel<u32>),
    Time(PartModel<Time>),
    Date(PartModel<Date>),
}

#[verifier::ext_equal]
pub ghost struct SimpleRuleModel {
    pub iterations: i32,
    pub parts: Seq<(Seq<char>, WrappedPartModel)>,
}

impl<T> View for SimpleRulePart<T> {
    type V = PartModel<T>;

    open spec fn view(&self) -> PartModel<T> {
        PartModel { seq: self.seq, values: self.values@, og_values: self.og_values@ }
    }
}

impl View for WrappedSimpleRulePart {
    type V = WrappedPartModel;

    open spec fn view(&self) -> WrappedPartModel {
        match self {
            WrappedSimpleRulePart::Number(p) => WrappedPartModel::Number(p@),
            WrappedSimpleRulePart::Time(p) => WrappedPartModel::Time(p@),
            WrappedSimpleRulePart::Date(p) => WrappedPartModel::Date(p@),
        }
    }
}

impl View for SimpleRule {
    type V = SimpleRuleModel;

    open spec fn view(&self) -> SimpleRuleModel {
        SimpleRuleModel { iterations: self.iterations, parts: self.parts@ }
    }
}

/// Whether one residual constraint accepts the datum `d`.
///
/// `GreaterEq` deliberately behaves as a strict bound, exactly as the
/// matcher has always behaved.
pub open spec fn val_matches<T: PartScalar>(v: SimpleRulePartValue<T>, d: T) -> bool {
    match v.border {
        SimpleRuleBorder::Exact => d.iv() == v.left_val.iv(),
        SimpleRuleBorder::Less => d.iv() < v.left_val.iv(),
        SimpleRuleBorder::LessEq => d.iv() <= v.left_val.iv(),
        SimpleRuleBorder::Greater => d.iv() > v.left_val.iv(),
        SimpleRuleBorder::GreaterEq => d.iv() > v.left_val.iv(),
        SimpleRuleBorder::Between => match v.right_val {
            Some(r) => v.left_val.iv() <= d.iv() && d.iv() <= r.iv(),
            None => false,
        },
    }
}

/// Index of the first constraint accepting `d`, or -1.
pub open spec fn first_match<T: PartScalar>(values: Seq<SimpleRulePartValue<T>>, d: T) -> int
    decreases values.len(),
{
    if values.len() <= 0 {
        -1
    } else if val_matches(values[0], d) {
        0
    } else {
        let r = first_match(values.subrange(1, values.len() as int), d);
        if r == -1 {
            -1
        } else {
            1 + r
        }
    }
}

pub proof fn lemma_first_match_from_scan<T: PartScalar>(
    values: Seq<SimpleRulePartValue<T>>,
    d: T,
    i: int,
)
    requires
        0 <= i <= values.len(),
        forall|j: int| 0 <= j < i ==> !val_matches(#[trigger] values[j], d),
    ensures
        i < values.len() && val_matches(values[i], d) ==> first_match(values, d) == i,
        i == values.len() ==> first_match(values, d) == -1,
    decreases values.len(),
{
    if values.len() > 0 && !val_matches(values[0], d) {
        let tail = values.subrange(1, values.len() as int);
        assert forall|j: int| 0 <= j < i - 1 implies !val_matches(#[trigger] tail[j], d) by {
            assert(tail[j] == values[j + 1]);
        }
        lemma_first_match_from_scan(tail, d, if i > 0 {
            i - 1
        } else {
            0
        });
        if i < values.len() && val_matches(values[i], d) {
            assert(tail[i - 1] == values[i]);
        }
    }
}

/// Decrement that stops at the lower end of `i32` instead of wrapping.
pub open spec fn sat_dec_i32(x: i32) -> i32 {
    if x == i32::MIN {
        x
    } else {
        (x - 1) as i32
    }
}

pub open spec fn exact_of(d: Date) -> SimpleRulePartValue<Date> {
    SimpleRulePartValue { border: SimpleRuleBorder::Exact, left_val: d, right_val: None }
}

pub open spec fn sentinels(n: u32) -> Seq<SimpleRulePartValue<Date>> {
    Seq::new(n as nat, |i: int| exact_of(Date { days: 0 }))
}

/// One advancement step of a part whose discipline is `Any`, `All` or
/// `Order`. These disciplines never change the residual values during the
/// raw step; values are only dropped later, by the owning rule's cleanup.
/// Any other discipline yields no outcome here.
pub open spec fn part_universal_adv<T: PartScalar>(p: PartModel<T>, d: T) -> (
    PartModel<T>,
    AdvancingResultType,
    Option<int>,
) {
    match p.seq {
        SimpleRuleSeq::Any => {
            if p.values.len() == 0 {
                (p, AdvancingResultType::Completed, None)
            } else if first_match(p.values, d) >= 0 {
                (p, AdvancingResultType::Completed, None)
            } else {
                (p, AdvancingResultType::Nothing, None)
            }
        },
        SimpleRuleSeq::All => {
            if p.values.len() == 0 {
                (p, AdvancingResultType::Completed, None)
            } else {
                let i = first_match(p.values, d);
                if i >= 0 {
                    if p.values.len() == 1 {
                        (p, AdvancingResultType::Completed, Some(i))
                    } else {
                        (p, AdvancingResultType::Hit, Some(i))
                    }
                } else {
                    (p, AdvancingResultType::Nothing, None)
                }
            }
        },
        SimpleRuleSeq::Order => {
            if p.values.len() == 0 {
                (p, AdvancingResultType::Completed, None)
            } else if val_matches(p.values[0], d) {
                if p.values.len() == 1 {
                    (p, AdvancingResultType::Completed, Some(0))
                } else {
                    (p, AdvancingResultType::Hit, Some(0))
                }
            } else {
                (p, AdvancingResultType::Nothing, None)
            }
        },
        _ => (p, AdvancingResultType::Nothing, None),
    }
}

/// One advancement step of a date streak buffer of nominal length `n`.
///
/// A first slot holding the sentinel (or matching today's date) extends the
/// streak: the second slot is overwritten with tomorrow, or the buffer
/// completes when only one slot is left. Anything else breaks the streak and
/// refills the buffer with sentinels before extending it again.
pub open spec fn part_streak_adv(values: Seq<SimpleRulePartValue<Date>>, d: Date, n: u32) -> (
    Seq<SimpleRulePartValue<Date>>,
    AdvancingResultType,
    Option<int>,
) {
    if values.len() == 0 {
        (values, AdvancingResultType::Completed, None)
    } else if val_matches(values[0], Date { days: 0 }) || val_matches(values[0], d) {
        if values.len() == 1 {
            (values, AdvancingResultType::Completed, Some(0))
        } else {
            (values.update(1, exact_of(d.spec_next_day())), AdvancingResultType::Hit, Some(0))
        }
    } else {
        let refill = sentinels(n);
        if n >= 2 {
            (refill.update(1, exact_of(d.spec_next_day())), AdvancingResultType::Hit, Some(0))
        } else {
            (refill, AdvancingResultType::Hit, Some(0))
        }
    }
}

/// One advancement step of a date part, covering all five disciplines.
pub open spec fn part_date_adv(p: PartModel<Date>, d: Date) -> (
    PartModel<Date>,
    AdvancingResultType,
    Option<int>,
) {
    match p.seq {
        SimpleRuleSeq::Streak(n) => {
            let (vals, t, dt) = part_streak_adv(p.values, d, n);
            (PartModel { seq: p.seq, values: vals, og_values: p.og_values }, t, dt)
        },
        SimpleRuleSeq::Selected(day) => {
            if day == 0 || d.spec_weekday_from_monday() == day as int {
                (p, AdvancingResultType::Completed, None)
            } else {
                (p, AdvancingResultType::Nothing, None)
            }
        },
        _ => part_universal_adv(p, d),
    }
}

pub open spec fn opt_usize_int(o: Option<usize>) -> Option<int> {
    match o {
        Some(i) => Some(i as int),
        None => None,
    }
}

/// One advancement step of a wrapped part against one event part value.
/// An event value whose kind does not fit the part leaves the part untouched
/// and yields no outcome.
pub open spec fn wrapped_adv(w: WrappedPartModel, v: EventPartValue) -> (
    WrappedPartModel,
    AdvancingResultType,
    Option<int>,
) {
    match (w, v) {
        (WrappedPartModel::Number(p), EventPartValue::NumberBased(x)) => {
            let (p2, t, dt) = part_universal_adv(p, x);
            (WrappedPartModel::Number(p2), t, dt)
        },
        (WrappedPartModel::Time(p), EventPartValue::TimeBased(x)) => {
            let (p2, t, dt) = part_universal_adv(p, x);
            (WrappedPartModel::Time(p2), t, dt)
        },
        (WrappedPartModel::Date(p), EventPartValue::DateBased(x)) => {
            let (p2, t, dt) = part_date_adv(p, x);
            (WrappedPartModel::Date(p2), t, dt)
        },
        _ => (w, AdvancingResultType::Nothing, None),
    }
}

/// What one traversal of the event parts leaves behind: the mutated rule
/// parts, the per-part outcomes gathered so far, and whether the traversal
/// stopped early on a part that yielded no outcome.
#[verifier::ext_equal]
pub ghost struct ScanRes {
    pub parts: Seq<(Seq<char>, WrappedPartModel)>,
    pub collected: Seq<(Seq<char>, AdvancingResultType, Option<int>)>,
    pub stopped: bool,
}

/// Traverses the event parts from position `i` on, advancing the matching
/// rule part for each (an event part without a matching rule part counts as
/// vacuously completed), and stopping at the first part that yields no
/// outcome.
pub open spec fn scan_event(
    parts: Seq<(Seq<char>, WrappedPartModel)>,
    ev: Seq<(Seq<char>, EventPartValue)>,
    i: int,
) -> ScanRes
    decreases ev.len() - i,
{
    if i < 0 || i >= ev.len() {
        ScanRes { parts, collected: Seq::empty(), stopped: false }
    } else {
        let k = ev[i].0;
        let v = ev[i].1;
        let pi = nm_index_of(parts, k);
        if pi == -1 {
            let rest = scan_event(parts, ev, i + 1);
            ScanRes {
                parts: rest.parts,
                collected: seq![(k, AdvancingResultType::Completed, None::<int>)] + rest.collected,
                stopped: rest.stopped,
            }
        } else {
            let (w2, t, dt) = wrapped_adv(parts[pi].1, v);
            let parts2 = parts.update(pi, (parts[pi].0, w2));
            if t == AdvancingResultType::Nothing {
                ScanRes { parts: parts2, collected: Seq::empty(), stopped: true }
            } else {
                let rest = scan_event(parts2, ev, i + 1);
                ScanRes {
                    parts: rest.parts,
                    collected: seq![(k, t, dt)] + rest.collected,
                    stopped: rest.stopped,
                }
            }
        }
    }
}

/// Drops the value at `idx` from a wrapped part, when it exists.
pub open spec fn wrapped_remove_val(w: WrappedPartModel, idx: int) -> WrappedPartModel {
    match w {
        WrappedPartModel::Number(p) => if 0 <= idx < p.values.len() {
            WrappedPartModel::Number(PartModel { values: p.values.remove(idx), ..p })
        } else {
            w
        },
        WrappedPartModel::Time(p) => if 0 <= idx < p.values.len() {
            WrappedPartModel::Time(PartModel { values: p.values.remove(idx), ..p })
        } else {
            w
        },
        WrappedPartModel::Date(p) => if 0 <= idx < p.values.len() {
            WrappedPartModel::Date(PartModel { values: p.values.remove(idx), ..p })
        } else {
            w
        },
    }
}

pub open spec fn clean_one(
    parts: Seq<(Seq<char>, WrappedPartModel)>,
    k: Seq<char>,
    idx: int,
) -> Seq<(Seq<char>, WrappedPartModel)> {
    let pi = nm_index_of(parts, k);
    if pi >= 0 {
        parts.update(pi, (parts[pi].0, wrapped_remove_val(parts[pi].1, idx)))
    } else {
        parts
    }
}

/// After a hit, every gathered outcome that carries an index has that value
/// dropped from its part.
pub open spec fn clean_parts(
    parts: Seq<(Seq<char>, WrappedPartModel)>,
    collected: Seq<(Seq<char>, AdvancingResultType, Option<int>)>,
    j: int,
) -> Seq<(Seq<char>, WrappedPartModel)>
    decreases collected.len() - j,
{
    if j < 0 || j >= collected.len() {
        parts
    } else {
        let parts2 = match collected[j].2 {
            Some(idx) => clean_one(parts, collected[j].0, idx),
            None => parts,
        };
        clean_parts(parts2, collected, j + 1)
    }
}

pub open spec fn all_collected_completed(
    collected: Seq<(Seq<char>, AdvancingResultType, Option<int>)>,
) -> bool {
    forall|i: int|
        0 <= i < collected.len() ==> (#[trigger] collected[i]).1
            == AdvancingResultType::Completed
}

/// The raw advancement of a simple rule by one event: scan the event parts,
/// yield nothing if any part yielded nothing, complete (using up one
/// iteration) if every part completed, and otherwise record a hit and drop
/// the matched values.
pub open spec fn simple_rule_adv(r: SimpleRuleModel, ev: Seq<(Seq<char>, EventPartValue)>) -> (
    SimpleRuleModel,
    AdvancingResultType,
) {
    let s = scan_event(r.parts, ev, 0);
    if s.stopped {
        (SimpleRuleModel { iterations: r.iterations, parts: s.parts }, AdvancingResultType::Nothing)
    } else if all_collected_completed(s.collected) {
        (
            SimpleRuleModel { iterations: sat_dec_i32(r.iterations), parts: s.parts },
            AdvancingResultType::Completed,
        )
    } else {
        (
            SimpleRuleModel {
                iterations: r.iterations,
                parts: clean_parts(s.parts, s.collected, 0),
            },
            AdvancingResultType::Hit,
        )
    }
}

pub open spec fn wrapped_reset(w: WrappedPartModel) -> WrappedPartModel {
    match w {
        WrappedPartModel::Number(p) => WrappedPartModel::Number(
            PartModel { values: p.og_values, ..p },
        ),
        WrappedPartModel::Time(p) => WrappedPartModel::Time(PartModel { values: p.og_values, ..p }),
        WrappedPartModel::Date(p) => WrappedPartModel::Date(PartModel { values: p.og_values, ..p }),
    }
}

pub open spec fn simple_rule_reset(r: SimpleRuleModel) -> SimpleRuleModel {
    SimpleRuleModel {
        iterations: r.iterations,
        parts: Seq::new(r.parts.len(), |i: int| (r.parts[i].0, wrapped_reset(r.parts[i].1))),
    }
}

pub open spec fn simple_rule_needs_reset(iterations: i32) -> bool {
    iterations != 0
}

/// The composite advancement: a completion of a rule that still has
/// iterations left resets the rule and is reported as `Restarted`.
pub open spec fn simple_rule_advance_full(
    r: SimpleRuleModel,
    ev: Seq<(Seq<char>, EventPartValue)>,
) -> (SimpleRuleModel, AdvancingResultType) {
    let (r2, t) = simple_rule_adv(r, ev);
    if t == AdvancingResultType::Completed && simple_rule_needs_reset(r2.iterations) {
        (simple_rule_reset(r2), AdvancingResultType::Restarted)
    } else {
        (r2, t)
    }
}

/// View of the outcomes gathered by the executable scan.
pub open spec fn cview(c: Seq<(String, AdvancingResult<usize>)>) -> Seq<
    (Seq<char>, AdvancingResultType, Option<int>),
> {
    Seq::new(c.len(), |i: int| (c[i].0@, c[i].1.res_type, opt_usize_int(c[i].1.data)))
}

// ---------------------------------------------------------------------------
// Executable part level
// ---------------------------------------------------------------------------

impl<T: PartScalar> SimpleRulePartValue<T> {
    pub fn exact(val: T) -> (r: Self)
        ensures
            r == (SimpleRulePartValue { border: SimpleRuleBorder::Exact, left_val: val, right_val: None::<T> }),
    {
        Self::new(SimpleRuleBorder::Exact, val, None)
    }

    pub fn new(border: SimpleRuleBorder, left_val: T, right_val: Option<T>) -> (r: Self)
        ensures
            r == (SimpleRulePartValue { border, left_val, right_val }),
    {
        Self { border, left_val, right_val }
    }

    /// Whether this residual constraint accepts the datum `d`.
    pub fn matches(&self, d: T) -> (r: bool)
        ensures
            r == val_matches(*self, d),
    {
        match self.border {
            SimpleRuleBorder::Exact => d.sc_eq(self.left_val),
            SimpleRuleBorder::Less => d.sc_lt(self.left_val),
            SimpleRuleBorder::LessEq => d.sc_le(self.left_val),
            SimpleRuleBorder::Greater => self.left_val.sc_lt(d),
            SimpleRuleBorder::GreaterEq => self.left_val.sc_lt(d),
            SimpleRuleBorder::Between => match &self.right_val {
                Some(rv) => self.left_val.sc_le(d) && d.sc_le(*rv),
                None => false,
            },
        }
    }
}

/// Duplicates a list of residual constraints (the elements copy freely).
fn copy_values<T: PartScalar>(v: &Vec<SimpleRulePartValue<T>>) -> (r: Vec<SimpleRulePartValue<T>>)
    ensures
        r@ =~= v@,
{
    let mut r: Vec<SimpleRulePartValue<T>> = Vec::new();
    let n = v.len();
    let mut i: usize = 0;
    while i < n
        invariant
            n == v@.len(),
            0 <= i <= n,
            r@ =~= v@.take(i as int),
        decreases n - i,
    {
        r.push(v[i]);
        proof {
            assert(v@.take(i as int + 1) =~= v@.take(i as int).push(v@[i as int]));
        }
        i += 1;
    }
    proof {
        assert(v@.take(n as int) =~= v@);
    }
    r
}

impl<T: PartScalar> SimpleRulePart<T> {
    pub fn new(seq: SimpleRuleSeq, values: Vec<SimpleRulePartValue<T>>) -> (r: Self)
        ensures
            r@ == (PartModel { seq, values: values@, og_values: values@ }),
    {
        let vals = copy_values(&values);
        SimpleRulePart { seq, values: vals, og_values: values }
    }

    pub fn empty() -> (r: Self)
        ensures
            r@ == (PartModel::<T> {
                seq: SimpleRuleSeq::Any,
                values: Seq::empty(),
                og_values: Seq::empty(),
            }),
    {
        let r = SimpleRulePart { seq: SimpleRuleSeq::Any, values: Vec::new(), og_values: Vec::new() };
        proof {
            assert(r@.values =~= Seq::<SimpleRulePartValue<T>>::empty());
            assert(r@.og_values =~= Seq::<SimpleRulePartValue<T>>::empty());
        }
        r
    }

    /// Restores the residual values from the immutable snapshot.
    pub fn reset(&mut self)
        ensures
            final(self)@ == (PartModel {
                seq: old(self)@.seq,
                values: old(self)@.og_values,
                og_values: old(self)@.og_values,
            }),
    {
        self.values = copy_values(&self.og_values);
    }

    /// A part never asks to be reset on completion.
    pub fn needs_reset(&self) -> (r: bool)
        ensures
            r == false,
    {
        false
    }

    fn find_first_match(&self, d: T) -> (r: Option<usize>)
        ensures
            match r {
                Some(i) => first_match(self@.values, d) == i as int && i < self@.values.len(),
                None => first_match(self@.values, d) == -1,
            },
    {
        let n = self.values.len();
        let mut i: usize = 0;
        while i < n
            invariant
                n == self@.values.len(),
                0 <= i <= n,
                forall|j: int| 0 <= j < i ==> !val_matches(#[trigger] self@.values[j], d),
            decreases n - i,
        {
            if self.values[i].matches(d) {
                proof {
                    lemma_first_match_from_scan(self@.values, d, i as int);
                }
                return Some(i);
            }
            i += 1;
        }
        proof {
            lemma_first_match_from_scan(self@.values, d, n as int);
        }
        None
    }

    /// Raw advancement for the order-free disciplines (`Any`, `All`,
    /// `Order`); any other discipline yields no outcome.
    pub fn universal_raw(&mut self, d: T) -> (r: AdvancingResult<usize>)
        ensures
            ({
                let (p2, t, dt) = part_universal_adv(old(self)@, d);
                final(self)@ == p2 && r.res_type == t && opt_usize_int(r.data) == dt
            }),
    {
        match self.seq {
            SimpleRuleSeq::Any => {
                if self.values.len() == 0 {
                    AdvancingResult::completed(None)
                } else {
                    match self.find_first_match(d) {
                        Some(_) => AdvancingResult::completed(None),
                        None => AdvancingResult::empty(),
                    }
                }
            },
            SimpleRuleSeq::All => {
                if self.values.len() == 0 {
                    AdvancingResult::completed(None)
                } else {
                    match self.find_first_match(d) {
                        Some(i) => {
                            if self.values.len() == 1 {
                                AdvancingResult::completed(Some(i))
                            } else {
                                AdvancingResult::hit(Some(i))
                            }
                        },
                        None => AdvancingResult::empty(),
                    }
                }
            },
            SimpleRuleSeq::Order => {
                if self.values.len() == 0 {
                    AdvancingResult::completed(None)
                } else if self.values[0].matches(d) {
                    if self.values.len() == 1 {
                        AdvancingResult::completed(Some(0))
                    } else {
                        AdvancingResult::hit(Some(0))
                    }
                } else {
                    AdvancingResult::empty()
                }
            },
            _ => AdvancingResult::empty(),
        }
    }
}

impl SimpleRulePart<Date> {
    /// Raw advancement of a date part, covering streaks and selected
    /// weekdays on top of the order-free disciplines.
    pub fn date_raw(&mut self, d: Date) -> (r: AdvancingResult<usize>)
        ensures
            ({
                let (p2, t, dt) = part_date_adv(old(self)@, d);
                final(self)@ == p2 && r.res_type == t && opt_usize_int(r.data) == dt
            }),
    {
        match self.seq {
            SimpleRuleSeq::Streak(n) => self.streak_raw(d, n),
            SimpleRuleSeq::Selected(day) => {
                if day == 0 || d.weekday_from_monday() == day {
                    AdvancingResult::completed(None)
                } else {
                    AdvancingResult::empty()
                }
            },
            _ => self.universal_raw(d),
        }
    }

    fn streak_raw(&mut self, d: Date, n: u32) -> (r: AdvancingResult<usize>)
        requires
            old(self).seq == SimpleRuleSeq::Streak(n),
        ensures
            ({
                let (vals, t, dt) = part_streak_adv(old(self)@.values, d, n);
                final(self)@ == (PartModel {
                    seq: old(self)@.seq,
                    values: vals,
                    og_values: old(self)@.og_values,
                }) && r.res_type == t && opt_usize_int(r.data) == dt
            }),
    {
        let len = self.values.len();
        if len == 0 {
            return AdvancingResult::completed(None);
        }
        let first = self.values[0];
        if first.matches(Date::epoch()) || first.matches(d) {
            if len == 1 {
                AdvancingResult::completed(Some(0))
            } else {
                self.set_second(d);
                AdvancingResult::hit(Some(0))
            }
        } else {
            self.values.clear();
            let mut i: u32 = 0;
            while i < n
                invariant
                    0 <= i <= n,
                    self@.values =~= sentinels(i),
                    self@.seq == old(self)@.seq,
                    self@.og_values == old(self)@.og_values,
                decreases n - i,
            {
                self.values.push(SimpleRulePartValue::exact(Date::epoch()));
                proof {
                    assert(self@.values =~= sentinels((i + 1) as u32));
                }
                i += 1;
            }
            if n >= 2 {
                self.set_second(d);
            }
            AdvancingResult::hit(Some(0))
        }
    }

    /// Overwrites the second slot of the streak buffer with tomorrow.
    fn set_second(&mut self, d: Date)
        requires
            old(self)@.values.len() >= 2,
        ensures
            final(self)@ == (PartModel {
                seq: old(self)@.seq,
                values: old(self)@.values.update(1, exact_of(d.spec_next_day())),
                og_values: old(self)@.og_values,
            }),
    {
        self.values.remove(1);
        self.values.insert(1, SimpleRulePartValue::exact(d.next_day()));
        proof {
            assert(self@.values =~= old(self)@.values.update(1, exact_of(d.spec_next_day())));
        }
    }
}

// ---------------------------------------------------------------------------
// Executable rule level
// ---------------------------------------------------------------------------

impl SimpleRule {
    pub fn new(iterations: i32, parts: Vec<(String, WrappedSimpleRulePart)>) -> (r: Self)
        ensures
            r@.iterations == iterations,
            r@.parts =~= crate::named_map::nm_from_pairs(
                Seq::new(parts@.len(), |i: int| (parts@[i].0@, parts@[i].1@)),
            ),
    {
        SimpleRule { iterations, parts: NamedMap::from_pairs(parts) }
    }

    /// A rule asks to be reset after a completion that left iterations
    /// behind (a negative count means forever).
    pub fn needs_reset(&self) -> (r: bool)
        ensures
            r == simple_rule_needs_reset(self@.iterations),
    {
        self.iterations != 0
    }

    /// Restores every part's residual values from its snapshot.
    pub fn reset(&mut self)
        ensures
            final(self)@ =~~= simple_rule_reset(old(self)@),
    {
        let n = self.parts.entries.len();
        let mut i: usize = 0;
        while i < n
            invariant
                n == old(self)@.parts.len(),
                n == self.parts.entries@.len(),
                0 <= i <= n,
                self@.iterations == old(self)@.iterations,
                forall|j: int|
                    i <= j < n ==> (#[trigger] self@.parts[j]) == old(self)@.parts[j],
                forall|j: int|
                    0 <= j < i ==> (#[trigger] self@.parts[j]) == (
                        old(self)@.parts[j].0,
                        wrapped_reset(old(self)@.parts[j].1),
                    ),
            decreases n - i,
        {
            let ghost pre = self@.parts;
            let w = &mut self.parts.entries[i].1;
            match w {
                WrappedSimpleRulePart::Number(p) => p.reset(),
                WrappedSimpleRulePart::Time(p) => p.reset(),
                WrappedSimpleRulePart::Date(p) => p.reset(),
            }
            proof {
                assert(self@.parts[i as int].1 =~~= wrapped_reset(pre[i as int].1));
                assert forall|j: int| 0 <= j < n && j != i implies (#[trigger] self@.parts[j])
                    == pre[j] by {}
            }
            i += 1;
        }
        proof {
            assert(final(self)@ =~~= simple_rule_reset(old(self)@));
        }
    }

    /// The raw advancement of this rule by one event, as given by
    /// `simple_rule_adv`.
    pub fn raw_advance(&mut self, ev: &Event) -> (r: AdvancingResult<()>)
        ensures
            ({
                let (m2, t) = simple_rule_adv(old(self)@, ev@);
                final(self)@ =~~= m2 && r.res_type == t && r.data is None
            }),
    {
        let ghost m0 = old(self)@;
        let n = ev.parts.len();
        let mut collected: Vec<(String, AdvancingResult<usize>)> = Vec::new();
        let mut i: usize = 0;
        let mut stopped = false;
        while i < n && !stopped
            invariant
                n == ev@.len(),
                0 <= i <= n,
                self@.iterations == m0.iterations,
                !stopped ==> {
                    &&& scan_event(m0.parts, ev@, 0).parts =~~= scan_event(
                        self@.parts,
                        ev@,
                        i as int,
                    ).parts
                    &&& scan_event(m0.parts, ev@, 0).collected =~~= cview(collected@)
                        + scan_event(self@.parts, ev@, i as int).collected
                    &&& scan_event(m0.parts, ev@, 0).stopped == scan_event(
                        self@.parts,
                        ev@,
                        i as int,
                    ).stopped
                },
                stopped ==> {
                    &&& scan_event(m0.parts, ev@, 0).parts =~~= self@.parts
                    &&& scan_event(m0.parts, ev@, 0).stopped
                },
            decreases n - i,
        {
            let ghost pre_parts = self@.parts;
            let ghost sc_pre = scan_event(pre_parts, ev@, i as int);
            let key = ev.parts.key_at(i);
            let pv = *ev.parts.value_at(i);
            let pos = self.parts.index_of(key.as_str());
            match pos {
                None => {
                    collected.push((key.clone(), AdvancingResult::completed(None)));
                    proof {
                        let one = seq![
                            (key@, AdvancingResultType::Completed, None::<int>),
                        ];
                        assert(cview(collected@) =~~= cview(collected@.drop_last()) + one);
                        assert(cview(collected@.drop_last()) + (one + scan_event(
                            self@.parts,
                            ev@,
                            i as int + 1,
                        ).collected) =~~= cview(collected@) + scan_event(
                            self@.parts,
                            ev@,
                            i as int + 1,
                        ).collected);
                    }
                },
                Some(pi) => {
                    let res: AdvancingResult<usize> = {
                        let w = &mut self.parts.entries[pi].1;
                        match (w, pv) {
                            (
                                WrappedSimpleRulePart::Number(p),
                                EventPartValue::NumberBased(x),
                            ) => p.universal_raw(x),
                            (WrappedSimpleRulePart::Time(p), EventPartValue::TimeBased(x)) => p
                                .universal_raw(x),
                            (WrappedSimpleRulePart::Date(p), EventPartValue::DateBased(x)) => p
                                .date_raw(x),
                            _ => AdvancingResult::empty(),
                        }
                    };
                    proof {
                        let step = wrapped_adv(pre_parts[pi as int].1, ev@[i as int].1);
                        assert(self@.parts =~~= pre_parts.update(
                            pi as int,
                            (pre_parts[pi as int].0, step.0),
                        ));
                        assert(res.res_type == step.1 && opt_usize_int(res.data) == step.2);
                    }
                    if res.res_type == AdvancingResultType::Nothing {
                        stopped = true;
                    } else {
                        collected.push((key.clone(), res));
                        proof {
                            let ghost k = key@;
                            let one = seq![(k, res.res_type, opt_usize_int(res.data))];
                            assert(cview(collected@) =~~= cview(collected@.drop_last()) + one);
                            assert(cview(collected@.drop_last()) + (one + scan_event(
                                self@.parts,
                                ev@,
                                i as int + 1,
                            ).collected) =~~= cview(collected@) + scan_event(
                                self@.parts,
                                ev@,
                                i as int + 1,
                            ).collected);
                        }
                    }
                },
            }
            i += 1;
        }
        if stopped {
            return AdvancingResult::empty();
        }
        let ghost scan0 = scan_event(m0.parts, ev@, 0);
        proof {
            assert(scan0.collected =~~= cview(collected@));
        }
        let cn = collected.len();
        let mut all = true;
        let mut j: usize = 0;
        while j < cn
            invariant
                cn == collected@.len(),
                0 <= j <= cn,
                all ==> forall|k: int|
                    0 <= k < j ==> (#[trigger] cview(collected@)[k]).1
                        == AdvancingResultType::Completed,
                !all ==> !all_collected_completed(cview(collected@)),
            decreases cn - j,
        {
            if !(collected[j].1.res_type == AdvancingResultType::Completed) {
                proof {
                    assert(cview(collected@)[j as int].1 != AdvancingResultType::Completed);
                }
                all = false;
            }
            j += 1;
        }
        if all {
            assert(all_collected_completed(scan0.collected));
            if self.iterations != i32::MIN {
                self.iterations = self.iterations - 1;
            }
            return AdvancingResult::completed(None);
        }
        assert(!all_collected_completed(scan0.collected));
        let ghost base = self@.parts;
        let mut j: usize = 0;
        while j < cn
            invariant
                cn == collected@.len(),
                0 <= j <= cn,
                self@.iterations == m0.iterations,
                clean_parts(base, cview(collected@), 0) =~~= clean_parts(
                    self@.parts,
                    cview(collected@),
                    j as int,
                ),
            decreases cn - j,
        {
            let dat = collected[j].1.data;
            if let Some(idx) = dat {
                let ghost pre = self@.parts;
                let name = &collected[j].0;
                let pos = self.parts.index_of(name.as_str());
                if let Some(pi) = pos {
                    let w = &mut self.parts.entries[pi].1;
                    match w {
                        WrappedSimpleRulePart::Number(p) => {
                            if idx < p.values.len() {
                                p.values.remove(idx);
                            }
                        },
                        WrappedSimpleRulePart::Time(p) => {
                            if idx < p.values.len() {
                                p.values.remove(idx);
                            }
                        },
                        WrappedSimpleRulePart::Date(p) => {
                            if idx < p.values.len() {
                                p.values.remove(idx);
                            }
                        },
                    }
                    proof {
                        assert(self@.parts =~~= clean_one(pre, name@, idx as int));
                    }
                }
            }
            j += 1;
        }
        AdvancingResult::hit(None)
    }

    /// The composite advancement: a completion that left iterations behind
    /// resets the rule and is reported as `Restarted`.
    pub fn advance(&mut self, ev: &Event) -> (r: AdvancingResult<()>)
        ensures
            ({
                let (m2, t) = simple_rule_advance_full(old(self)@, ev@);
                final(self)@ =~~= m2 && r.res_type == t && r.data is None
            }),
    {
        let res = self.raw_advance(ev);
        if res.res_type == AdvancingResultType::Completed && self.needs_reset() {
            self.reset();
            AdvancingResult::restarted(None)
        } else {
            res
        }
    }
}

impl NamedSimpleRule {
    pub fn new(name: String, rule: SimpleRule) -> (r: Self)
        ensures
            r.name@ == name@,
            r.rule@ == rule@,
    {
        NamedSimpleRule { name, rule }
    }
}

impl Advancing<Event, ()> for SimpleRule {
    fn raw_advance(&mut self, data: &Event) -> AdvancingResult<()> {
        SimpleRule::raw_advance(self, data)
    }

    fn reset(&mut self) {
        SimpleRule::reset(self)
    }

    fn needs_reset(&self) -> bool {
        SimpleRule::needs_reset(self)
    }

    fn advance(&mut self, data: &Event) -> AdvancingResult<()> {
        SimpleRule::advance(self, data)
    }
}

impl Advancing<u32, usize> for SimpleRulePart<u32> {
    fn raw_advance(&mut self, data: &u32) -> AdvancingResult<usize> {
        self.universal_raw(*data)
    }

    fn reset(&mut self) {
        SimpleRulePart::reset(self)
    }

    fn needs_reset(&self) -> bool {
        SimpleRulePart::needs_reset(self)
    }

    fn advance(&mut self, data: &u32) -> AdvancingResult<usize> {
        self.universal_raw(*data)
    }
}

impl Advancing<Time, usize> for SimpleRulePart<Time> {
    fn raw_advance(&mut self, data: &Time) -> AdvancingResult<usize> {
        self.universal_raw(*data)
    }

    fn reset(&mut self) {
        SimpleRulePart::reset(self)
    }

    fn needs_reset(&self) -> bool {
        SimpleRulePart::needs_reset(self)
    }

    fn advance(&mut self, data: &Time) -> AdvancingResult<usize> {
        self.universal_raw(*data)
    }
}

impl Advancing<Date, usize> for SimpleRulePart<Date> {
    fn raw_advance(&mut self, data: &Date) -> AdvancingResult<usize> {
        self.date_raw(*data)
    }

    fn reset(&mut self) {
        SimpleRulePart::reset(self)
    }

    fn needs_reset(&self) -> bool {
        SimpleRulePart::needs_reset(self)
    }

    fn advance(&mut self, data: &Date) -> AdvancingResult<usize> {
        self.date_raw(*data)
    }
}

} // verus!
