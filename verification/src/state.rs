//! The engine state and its event processor.
//!
//! The state holds six name-keyed collections: an enabled and a disabled
//! mapping for each rule family. One `update` drives an event through the
//! families in a fixed order — simple rules, then compound rules fed with
//! the completed simple-rule names, then the results of every completed
//! name — moves completed rules from enabled to disabled, applies `Restart`
//! outcomes (which re-enable disabled simple and compound rules), and hands
//! the emitted `(kind, arguments)` pairs back to the caller.

use vstd::prelude::*;

use crate::compound_rule::{
    compound_advance_full, CompoundRule, CompoundRuleModel, NamedCompoundRule,
};
use crate::event::{Event, EventPartValue};
use crate::named_map::{
    nm_from_pairs, nm_get, nm_has_key, nm_index_of, nm_insert, nm_remove, NamedMap,
};
use crate::outcome::AdvancingResultType;
use crate::rule_result::{
    datas_view, result_adv, result_step_ok, NamedRuleResult, RuleResult, RuleResultKind,
    RuleResultValueModel,
};
use crate::sampler::{ora_at, sampler_after, scripted_remaining, Sampler, SamplerModel};
use crate::scalar::Date;
use crate::simple_rule::{
    simple_rule_advance_full, NamedSimpleRule, SimpleRule, SimpleRuleModel,
};

verus! {

pub struct State {
    pub enabled_simple_rules: NamedMap<SimpleRule>,
    pub enabled_compound_rules: NamedMap<CompoundRule>,
    pub enabled_rule_results: NamedMap<RuleResult>,
    pub disabled_simple_rules: NamedMap<SimpleRule>,
    pub disabled_compound_rules: NamedMap<CompoundRule>,
    pub disabled_rule_results: NamedMap<RuleResult>,
}

#[verifier::ext_equal]
pub ghost struct StateModel {
    pub enabled_simple_rules: Seq<(Seq<char>, SimpleRuleModel)>,
    pub enabled_compound_rules: Seq<(Seq<char>, CompoundRuleModel)>,
    pub enabled_rule_results: Seq<(Seq<char>, Seq<RuleResultValueModel>)>,
    pub disabled_simple_rules: Seq<(Seq<char>, SimpleRuleModel)>,
    pub disabled_compound_rules: Seq<(Seq<char>, CompoundRuleModel)>,
    pub disabled_rule_results: Seq<(Seq<char>, Seq<RuleResultValueModel>)>,
}

impl View for State {
    type V = StateModel;

    open spec fn view(&self) -> StateModel {
        StateModel {
            enabled_simple_rules: self.enabled_simple_rules@,
            enabled_compound_rules: self.enabled_compound_rules@,
            enabled_rule_results: self.enabled_rule_results@,
            disabled_simple_rules: self.disabled_simple_rules@,
            disabled_compound_rules: self.disabled_compound_rules@,
            disabled_rule_results: self.disabled_rule_results@,
        }
    }
}

// ---------------------------------------------------------------------------
// The update pipeline, phase by phase
// ---------------------------------------------------------------------------

/// Simple phase, first half: every enabled simple rule advanced by the
/// event, in order, gathering `(tag, name)` for each rule that completed or
/// restarted. Processes the first `j` rules.
pub open spec fn simple_phase_prefix(
    rules: Seq<(Seq<char>, SimpleRuleModel)>,
    ev: Seq<(Seq<char>, EventPartValue)>,
    j: int,
) -> (Seq<(Seq<char>, SimpleRuleModel)>, Seq<(AdvancingResultType, Seq<char>)>)
    decreases j,
{
    if j <= 0 || j > rules.len() {
        (rules, Seq::empty())
    } else {
        let prev = simple_phase_prefix(rules, ev, j - 1);
        let name = rules[j - 1].0;
        let (r2, t) = simple_rule_advance_full(rules[j - 1].1, ev);
        let rules2 = prev.0.update(j - 1, (name, r2));
        if t == AdvancingResultType::Completed || t == AdvancingResultType::Restarted {
            (rules2, prev.1.push((t, name)))
        } else {
            (rules2, prev.1)
        }
    }
}

/// Simple phase, second half: every rule whose tag is `Completed` moves
/// from the enabled to the disabled mapping. Processes the tags from `j`
/// on.
pub open spec fn move_completed_simple(
    en: Seq<(Seq<char>, SimpleRuleModel)>,
    dis: Seq<(Seq<char>, SimpleRuleModel)>,
    comp: Seq<(AdvancingResultType, Seq<char>)>,
    j: int,
) -> (Seq<(Seq<char>, SimpleRuleModel)>, Seq<(Seq<char>, SimpleRuleModel)>)
    decreases comp.len() - j,
{
    if j < 0 || j >= comp.len() {
        (en, dis)
    } else {
        let (t, n) = comp[j];
        if t == AdvancingResultType::Completed && nm_has_key(en, n) {
            move_completed_simple(nm_remove(en, n), nm_insert(dis, n, nm_get(en, n)), comp, j + 1)
        } else {
            move_completed_simple(en, dis, comp, j + 1)
        }
    }
}

/// One completed simple-rule name fed to every enabled compound rule from
/// position `i` on. A compound rule that completes moves to the disabled
/// mapping at once; completed and restarted rules contribute their name.
pub open spec fn compound_pass(
    en: Seq<(Seq<char>, CompoundRuleModel)>,
    dis: Seq<(Seq<char>, CompoundRuleModel)>,
    name: Seq<char>,
    d: Date,
    i: int,
) -> (Seq<(Seq<char>, CompoundRuleModel)>, Seq<(Seq<char>, CompoundRuleModel)>, Seq<Seq<char>>)
    decreases en.len() - i,
{
    if i < 0 || i >= en.len() {
        (en, dis, Seq::empty())
    } else {
        let (cn, cr) = en[i];
        let (cr2, t) = compound_advance_full(cr, name, d);
        if t == AdvancingResultType::Completed {
            let rest = compound_pass(en.remove(i), nm_insert(dis, cn, cr2), name, d, i);
            (rest.0, rest.1, seq![cn] + rest.2)
        } else {
            let rest = compound_pass(en.update(i, (cn, cr2)), dis, name, d, i + 1);
            if t == AdvancingResultType::Restarted {
                (rest.0, rest.1, seq![cn] + rest.2)
            } else {
                (rest.0, rest.1, rest.2)
            }
        }
    }
}

/// Compound phase: the completed simple-rule names from `j` on, each fed to
/// the enabled compound rules, gathering the names of the compound rules
/// that completed or restarted.
pub open spec fn compound_phase(
    en: Seq<(Seq<char>, CompoundRuleModel)>,
    dis: Seq<(Seq<char>, CompoundRuleModel)>,
    names: Seq<Seq<char>>,
    d: Date,
    j: int,
) -> (Seq<(Seq<char>, CompoundRuleModel)>, Seq<(Seq<char>, CompoundRuleModel)>, Seq<Seq<char>>)
    decreases names.len() - j,
{
    if j < 0 || j >= names.len() {
        (en, dis, Seq::empty())
    } else {
        let p = compound_pass(en, dis, names[j], d, 0);
        let rest = compound_phase(p.0, p.1, names, d, j + 1);
        (rest.0, rest.1, p.2 + rest.2)
    }
}

/// Result phase: for the first `j` completed names, the enabled result of
/// that exact name (when there is one) advanced, its emissions appended,
/// and the result moved to the disabled mapping when it completed. Picks
/// are drawn from `ora` starting at the threaded position.
pub open spec fn result_phase_prefix(
    en: Seq<(Seq<char>, Seq<RuleResultValueModel>)>,
    dis: Seq<(Seq<char>, Seq<RuleResultValueModel>)>,
    names: Seq<Seq<char>>,
    ora: Seq<int>,
    j: int,
) -> (
    Seq<(Seq<char>, Seq<RuleResultValueModel>)>,
    Seq<(Seq<char>, Seq<RuleResultValueModel>)>,
    Seq<(RuleResultKind, Seq<Seq<char>>)>,
    int,
)
    decreases j,
{
    if j <= 0 || j > names.len() {
        (en, dis, Seq::empty(), 0)
    } else {
        let prev = result_phase_prefix(en, dis, names, ora, j - 1);
        let name = names[j - 1];
        let pi = nm_index_of(prev.0, name);
        if pi == -1 {
            prev
        } else {
            let (vals2, ds, t, used) = result_adv(prev.0[pi].1, ora.skip(prev.3));
            if t == AdvancingResultType::Completed {
                (
                    prev.0.remove(pi),
                    nm_insert(prev.1, name, vals2),
                    prev.2 + ds,
                    prev.3 + used,
                )
            } else {
                (
                    prev.0.update(pi, (prev.0[pi].0, vals2)),
                    prev.1,
                    prev.2 + ds,
                    prev.3 + used,
                )
            }
        }
    }
}

/// The arguments of one `Restart` emission from position `i` on: each
/// argument naming a disabled simple or compound rule moves that rule back
/// to the enabled mapping.
pub open spec fn restart_args(
    en_s: Seq<(Seq<char>, SimpleRuleModel)>,
    dis_s: Seq<(Seq<char>, SimpleRuleModel)>,
    en_c: Seq<(Seq<char>, CompoundRuleModel)>,
    dis_c: Seq<(Seq<char>, CompoundRuleModel)>,
    args: Seq<Seq<char>>,
    i: int,
) -> (
    Seq<(Seq<char>, SimpleRuleModel)>,
    Seq<(Seq<char>, SimpleRuleModel)>,
    Seq<(Seq<char>, CompoundRuleModel)>,
    Seq<(Seq<char>, CompoundRuleModel)>,
)
    decreases args.len() - i,
{
    if i < 0 || i >= args.len() {
        (en_s, dis_s, en_c, dis_c)
    } else {
        let a = args[i];
        let (en_s2, dis_s2) = if nm_has_key(dis_s, a) {
            (nm_insert(en_s, a, nm_get(dis_s, a)), nm_remove(dis_s, a))
        } else {
            (en_s, dis_s)
        };
        let (en_c2, dis_c2) = if nm_has_key(dis_c, a) {
            (nm_insert(en_c, a, nm_get(dis_c, a)), nm_remove(dis_c, a))
        } else {
            (en_c, dis_c)
        };
        restart_args(en_s2, dis_s2, en_c2, dis_c2, args, i + 1)
    }
}

/// Special-action phase: every `Restart` emission, from position `i` on,
/// re-enables the disabled simple and compound rules its arguments name.
pub open spec fn apply_restarts(
    en_s: Seq<(Seq<char>, SimpleRuleModel)>,
    dis_s: Seq<(Seq<char>, SimpleRuleModel)>,
    en_c: Seq<(Seq<char>, CompoundRuleModel)>,
    dis_c: Seq<(Seq<char>, CompoundRuleModel)>,
    datas: Seq<(RuleResultKind, Seq<Seq<char>>)>,
    i: int,
) -> (
    Seq<(Seq<char>, SimpleRuleModel)>,
    Seq<(Seq<char>, SimpleRuleModel)>,
    Seq<(Seq<char>, CompoundRuleModel)>,
    Seq<(Seq<char>, CompoundRuleModel)>,
)
    decreases datas.len() - i,
{
    if i < 0 || i >= datas.len() {
        (en_s, dis_s, en_c, dis_c)
    } else {
        let (kind, args) = datas[i];
        if kind == RuleResultKind::Restart {
            let t = restart_args(en_s, dis_s, en_c, dis_c, args, 0);
            apply_restarts(t.0, t.1, t.2, t.3, datas, i + 1)
        } else {
            apply_restarts(en_s, dis_s, en_c, dis_c, datas, i + 1)
        }
    }
}

/// The event date: the value of the event's `on` part. (The processor may
/// only lean on it when a compound rule is enabled, in which case the part
/// is required to be present.)
pub open spec fn event_date(ev: Seq<(Seq<char>, EventPartValue)>) -> Date {
    if nm_has_key(ev, "on"@) {
        match nm_get(ev, "on"@) {
            EventPartValue::DateBased(d) => d,
            _ => Date { days: 0 },
        }
    } else {
        Date { days: 0 }
    }
}

/// Whether the event carries a date under `on`.
pub open spec fn event_has_date(ev: Seq<(Seq<char>, EventPartValue)>) -> bool {
    nm_has_key(ev, "on"@) && nm_get(ev, "on"@) is DateBased
}

/// One full update: the simple phase, the compound phase over the completed
/// simple-rule names, the result phase over all completed names, and the
/// special-action phase over the emissions, which are returned together
/// with the number of picks drawn.
pub open spec fn update_spec(
    st: StateModel,
    ev: Seq<(Seq<char>, EventPartValue)>,
    ora: Seq<int>,
) -> (StateModel, Seq<(RuleResultKind, Seq<Seq<char>>)>, int) {
    let (rules2, comp) = simple_phase_prefix(
        st.enabled_simple_rules,
        ev,
        st.enabled_simple_rules.len() as int,
    );
    let (en_s, dis_s) = move_completed_simple(rules2, st.disabled_simple_rules, comp, 0);
    let simple_names = Seq::new(comp.len(), |i: int| comp[i].1);
    let d = event_date(ev);
    let (en_c, dis_c, comp_names) = compound_phase(
        st.enabled_compound_rules,
        st.disabled_compound_rules,
        simple_names,
        d,
        0,
    );
    let all_names = simple_names + comp_names;
    let (en_r, dis_r, datas, k) = result_phase_prefix(
        st.enabled_rule_results,
        st.disabled_rule_results,
        all_names,
        ora,
        all_names.len() as int,
    );
    let (en_s2, dis_s2, en_c2, dis_c2) = apply_restarts(en_s, dis_s, en_c, dis_c, datas, 0);
    (
        StateModel {
            enabled_simple_rules: en_s2,
            disabled_simple_rules: dis_s2,
            enabled_compound_rules: en_c2,
            disabled_compound_rules: dis_c2,
            enabled_rule_results: en_r,
            disabled_rule_results: dis_r,
        },
        datas,
        k,
    )
}

pub proof fn lemma_phase3_consumed(
    en: Seq<(Seq<char>, Seq<RuleResultValueModel>)>,
    dis: Seq<(Seq<char>, Seq<RuleResultValueModel>)>,
    names: Seq<Seq<char>>,
    ora: Seq<int>,
    j: int,
)
    ensures
        result_phase_prefix(en, dis, names, ora, j).3 >= 0,
        1 <= j <= names.len() ==> result_phase_prefix(en, dis, names, ora, j).3
            >= result_phase_prefix(en, dis, names, ora, j - 1).3,
    decreases j,
{
    if j >= 1 && j <= names.len() {
        lemma_phase3_consumed(en, dis, names, ora, j - 1);
        let prev = result_phase_prefix(en, dis, names, ora, j - 1);
        let pi = nm_index_of(prev.0, names[j - 1]);
        if pi != -1 {
            crate::rule_result::lemma_result_adv_consumed(prev.0[pi].1, ora.skip(prev.3));
        }
    }
}

/// The result phase never looks past the picks it draws: extending the
/// oracle beyond them changes nothing.
pub proof fn lemma_phase3_extend(
    en: Seq<(Seq<char>, Seq<RuleResultValueModel>)>,
    dis: Seq<(Seq<char>, Seq<RuleResultValueModel>)>,
    names: Seq<Seq<char>>,
    ora: Seq<int>,
    ext: Seq<int>,
    j: int,
)
    requires
        result_phase_prefix(en, dis, names, ora, j).3 <= ora.len(),
    ensures
        result_phase_prefix(en, dis, names, ora + ext, j) == result_phase_prefix(
            en,
            dis,
            names,
            ora,
            j,
        ),
    decreases j,
{
    if j >= 1 && j <= names.len() {
        lemma_phase3_consumed(en, dis, names, ora, j);
        lemma_phase3_consumed(en, dis, names, ora, j - 1);
        let prev = result_phase_prefix(en, dis, names, ora, j - 1);
        let pi = nm_index_of(prev.0, names[j - 1]);
        assert(0 <= prev.3 <= ora.len());
        lemma_phase3_extend(en, dis, names, ora, ext, j - 1);
        if pi != -1 {
            let vals = prev.0[pi].1;
            let used = result_adv(vals, ora.skip(prev.3)).3;
            assert(result_phase_prefix(en, dis, names, ora, j).3 == prev.3 + used);
            assert(used <= ora.skip(prev.3).len());
            assert((ora + ext).skip(prev.3) =~= ora.skip(prev.3) + ext);
            crate::rule_result::lemma_result_adv_extend(vals, ora.skip(prev.3), ext);
        }
    }
}

/// One update explained against a sampler: the post-state and the emissions
/// are `update_spec` of the pre-state, the event and the pick oracle `ora`;
/// the sampler moved by as many picks as were drawn; and a scripted
/// sampler's oracle is its script — so a scripted update is a function of
/// the pre-state, the event and the script alone.
pub open spec fn update_step_ok(
    st0: StateModel,
    ev: Seq<(Seq<char>, EventPartValue)>,
    s0: SamplerModel,
    st1: StateModel,
    ds: Seq<(RuleResultKind, Seq<Seq<char>>)>,
    s1: SamplerModel,
    ora: Seq<int>,
) -> bool {
    let (st2, dd, k) = update_spec(st0, ev, ora);
    &&& st1 == st2
    &&& ds == dd
    &&& ora.len() == k
    &&& s1 == sampler_after(s0, k)
    &&& (s0 is Scripted ==> ora =~= Seq::new(
        ora.len(),
        |m: int| ora_at(scripted_remaining(s0), m),
    ))
}

// ---------------------------------------------------------------------------
// Executable level
// ---------------------------------------------------------------------------

/// View of the gathered `(tag, name)` pairs of the simple phase.
pub open spec fn compv(c: Seq<(AdvancingResultType, String)>) -> Seq<
    (AdvancingResultType, Seq<char>),
> {
    Seq::new(c.len(), |i: int| (c[i].0, c[i].1@))
}

/// View of a list of owned names.
pub open spec fn namesv(c: Seq<String>) -> Seq<Seq<char>> {
    Seq::new(c.len(), |i: int| c[i]@)
}

impl State {
    /// A fresh state: every given rule enabled under its name, nothing
    /// disabled.
    pub fn new(
        simple_rules: Vec<NamedSimpleRule>,
        compound_rules: Vec<NamedCompoundRule>,
        rule_results: Vec<NamedRuleResult>,
    ) -> (r: State)
        ensures
            r@.enabled_simple_rules =~= nm_from_pairs(
                Seq::new(
                    simple_rules@.len(),
                    |i: int| (simple_rules@[i].name@, simple_rules@[i].rule@),
                ),
            ),
            r@.enabled_compound_rules =~= nm_from_pairs(
                Seq::new(
                    compound_rules@.len(),
                    |i: int| (compound_rules@[i].name@, compound_rules@[i].rule@),
                ),
            ),
            r@.enabled_rule_results =~= nm_from_pairs(
                Seq::new(
                    rule_results@.len(),
                    |i: int| (rule_results@[i].name@, rule_results@[i].res@),
                ),
            ),
            r@.disabled_simple_rules =~= Seq::<(Seq<char>, SimpleRuleModel)>::empty(),
            r@.disabled_compound_rules =~= Seq::<(Seq<char>, CompoundRuleModel)>::empty(),
            r@.disabled_rule_results =~= Seq::<(Seq<char>, Seq<RuleResultValueModel>)>::empty(),
    {
        let ghost sv = Seq::new(
            simple_rules@.len(),
            |i: int| (simple_rules@[i].name@, simple_rules@[i].rule@),
        );
        let ghost cv = Seq::new(
            compound_rules@.len(),
            |i: int| (compound_rules@[i].name@, compound_rules@[i].rule@),
        );
        let ghost rv = Seq::new(
            rule_results@.len(),
            |i: int| (rule_results@[i].name@, rule_results@[i].res@),
        );
        let mut sp: Vec<(String, SimpleRule)> = Vec::new();
        let mut simple_rules = simple_rules;
        let ns = simple_rules.len();
        let mut i: usize = 0;
        while i < ns
            invariant
                ns == sv.len(),
                simple_rules@.len() == ns - i,
                0 <= i <= ns,
                sp@.len() == i,
                forall|q: int|
                    0 <= q < ns - i ==> ((#[trigger] simple_rules@[q]).name@,
                    simple_rules@[q].rule@) == sv[i + q],
                forall|q: int|
                    0 <= q < i ==> ((#[trigger] sp@[q]).0@, sp@[q].1@) == sv[q],
            decreases ns - i,
        {
            let e = simple_rules.remove(0);
            sp.push((e.name, e.rule));
            i += 1;
        }
        let mut cp: Vec<(String, CompoundRule)> = Vec::new();
        let mut compound_rules = compound_rules;
        let nc = compound_rules.len();
        let mut i: usize = 0;
        while i < nc
            invariant
                nc == cv.len(),
                compound_rules@.len() == nc - i,
                0 <= i <= nc,
                cp@.len() == i,
                forall|q: int|
                    0 <= q < nc - i ==> ((#[trigger] compound_rules@[q]).name@,
                    compound_rules@[q].rule@) == cv[i + q],
                forall|q: int|
                    0 <= q < i ==> ((#[trigger] cp@[q]).0@, cp@[q].1@) == cv[q],
            decreases nc - i,
        {
            let e = compound_rules.remove(0);
            cp.push((e.name, e.rule));
            i += 1;
        }
        let mut rp: Vec<(String, RuleResult)> = Vec::new();
        let mut rule_results = rule_results;
        let nr = rule_results.len();
        let mut i: usize = 0;
        while i < nr
            invariant
                nr == rv.len(),
                rule_results@.len() == nr - i,
                0 <= i <= nr,
                rp@.len() == i,
                forall|q: int|
                    0 <= q < nr - i ==> ((#[trigger] rule_results@[q]).name@,
                    rule_results@[q].res@) == rv[i + q],
                forall|q: int|
                    0 <= q < i ==> ((#[trigger] rp@[q]).0@, rp@[q].1@) == rv[q],
            decreases nr - i,
        {
            let e = rule_results.remove(0);
            rp.push((e.name, e.res));
            i += 1;
        }
        let ghost spv = sp@;
        let ghost cpv = cp@;
        let ghost rpv = rp@;
        let st = State {
            enabled_simple_rules: NamedMap::from_pairs(sp),
            enabled_compound_rules: NamedMap::from_pairs(cp),
            enabled_rule_results: NamedMap::from_pairs(rp),
            disabled_simple_rules: NamedMap::new(),
            disabled_compound_rules: NamedMap::new(),
            disabled_rule_results: NamedMap::new(),
        };
        proof {
            assert(Seq::new(spv.len(), |i: int| (spv[i].0@, spv[i].1@)) =~= sv);
            assert(Seq::new(cpv.len(), |i: int| (cpv[i].0@, cpv[i].1@)) =~= cv);
            assert(Seq::new(rpv.len(), |i: int| (rpv[i].0@, rpv[i].1@)) =~= rv);
        }
        st
    }

    /// One update against an explicit sampler, together with the pick
    /// oracle that explains it.
    fn update_core(&mut self, event: &Event, s: &mut Sampler) -> (r: (
        Vec<(RuleResultKind, Vec<String>)>,
        Ghost<Seq<int>>,
    ))
        ensures
            update_step_ok(
                old(self)@,
                event@,
                old(s)@,
                final(self)@,
                datas_view(r.0@),
                final(s)@,
                r.1@,
            ),
    {
        let ghost st0 = self@;
        let ghost s0 = s@;
        let ghost ev = event@;

        // Simple phase: advance every enabled simple rule.
        let ghost pre_sr = self@.enabled_simple_rules;
        let n1 = self.enabled_simple_rules.len();
        let mut comp: Vec<(AdvancingResultType, String)> = Vec::new();
        let mut i: usize = 0;
        while i < n1
            invariant
                n1 == pre_sr.len(),
                n1 == self.enabled_simple_rules@.len(),
                0 <= i <= n1,
                ({
                    let p = simple_phase_prefix(pre_sr, ev, i as int);
                    &&& self@.enabled_simple_rules =~~= p.0
                    &&& compv(comp@) =~~= p.1
                }),
                forall|q: int|
                    i <= q < n1 ==> (#[trigger] self@.enabled_simple_rules[q]) == pre_sr[q],
                self@.disabled_simple_rules == st0.disabled_simple_rules,
                self@.enabled_compound_rules == st0.enabled_compound_rules,
                self@.disabled_compound_rules == st0.disabled_compound_rules,
                self@.enabled_rule_results == st0.enabled_rule_results,
                self@.disabled_rule_results == st0.disabled_rule_results,
                ev == event@,
            decreases n1 - i,
        {
            let name = self.enabled_simple_rules.entries[i].0.clone();
            let ghost before = self@.enabled_simple_rules;
            let adv = {
                let r = &mut self.enabled_simple_rules.entries[i].1;
                SimpleRule::advance(r, event)
            };
            proof {
                assert(before[i as int].1 == pre_sr[i as int].1);
                assert forall|q: int|
                    0 <= q < n1 && q != i as int implies (#[trigger] self@.enabled_simple_rules[q])
                    == before[q] by {}
                assert(compv(comp@.push((adv.res_type, name))) =~= compv(comp@).push(
                    (adv.res_type, name@),
                ));
            }
            if adv.res_type == AdvancingResultType::Completed || adv.res_type
                == AdvancingResultType::Restarted {
                comp.push((adv.res_type, name));
            }
            proof {
                let prev = simple_phase_prefix(pre_sr, ev, i as int);
                let (r2, t) = simple_rule_advance_full(pre_sr[i as int].1, ev);
                assert(adv.res_type == t);
                assert(before =~~= prev.0);
                assert(before == prev.0);
                assert(self@.enabled_simple_rules =~~= prev.0.update(
                    i as int,
                    (pre_sr[i as int].0, r2),
                ));
                assert(self@.enabled_simple_rules =~~= simple_phase_prefix(
                    pre_sr,
                    ev,
                    i as int + 1,
                ).0);
                assert(compv(comp@) =~~= simple_phase_prefix(pre_sr, ev, i as int + 1).1);
            }
            i += 1;
        }
        let ghost comp_seq = compv(comp@);
        let ghost rules2 = self@.enabled_simple_rules;
        proof {
            let p = simple_phase_prefix(pre_sr, ev, n1 as int);
            assert(rules2 =~~= p.0);
            assert(comp_seq =~~= p.1);
        }

        // Simple phase: move the completed rules to the disabled mapping.
        let n2 = comp.len();
        let mut j: usize = 0;
        while j < n2
            invariant
                n2 == comp_seq.len(),
                compv(comp@) == comp_seq,
                comp@.len() == n2,
                0 <= j <= n2,
                move_completed_simple(rules2, st0.disabled_simple_rules, comp_seq, 0)
                    == move_completed_simple(
                    self@.enabled_simple_rules,
                    self@.disabled_simple_rules,
                    comp_seq,
                    j as int,
                ),
                self@.enabled_compound_rules == st0.enabled_compound_rules,
                self@.disabled_compound_rules == st0.disabled_compound_rules,
                self@.enabled_rule_results == st0.enabled_rule_results,
                self@.disabled_rule_results == st0.disabled_rule_results,
            decreases n2 - j,
        {
            if comp[j].0 == AdvancingResultType::Completed {
                let name = comp[j].1.clone();
                let removed = self.enabled_simple_rules.remove(name.as_str());
                if let Some(rl) = removed {
                    self.disabled_simple_rules.insert(name, rl);
                }
            }
            j += 1;
        }
        let ghost en_s = self@.enabled_simple_rules;
        let ghost dis_s = self@.disabled_simple_rules;

        // The completed simple-rule names, in gathering order.
        let mut names: Vec<String> = Vec::new();
        let mut j: usize = 0;
        while j < n2
            invariant
                comp@.len() == n2,
                compv(comp@) == comp_seq,
                0 <= j <= n2,
                names@.len() == j,
                forall|q: int| 0 <= q < j ==> (#[trigger] names@[q])@ == comp_seq[q].1,
            decreases n2 - j,
        {
            names.push(comp[j].1.clone());
            j += 1;
        }
        let ghost simple_names = Seq::new(comp_seq.len(), |i: int| comp_seq[i].1);
        proof {
            assert(namesv(names@) =~= simple_names);
        }

        // Compound phase.
        let d: Date = match event.parts.get("on") {
            Some(EventPartValue::DateBased(dd)) => *dd,
            _ => Date::epoch(),
        };
        proof {
            assert(d == event_date(ev));
        }
        let ghost pre_ce = self@.enabled_compound_rules;
        let ghost pre_cd = self@.disabled_compound_rules;
        let mut cnames: Vec<String> = Vec::new();
        let nn = names.len();
        let mut j: usize = 0;
        while j < nn
            invariant
                nn == names@.len(),
                namesv(names@) == simple_names,
                nn == simple_names.len(),
                0 <= j <= nn,
                ({
                    let full = compound_phase(pre_ce, pre_cd, simple_names, d, 0);
                    let rest = compound_phase(
                        self@.enabled_compound_rules,
                        self@.disabled_compound_rules,
                        simple_names,
                        d,
                        j as int,
                    );
                    &&& full.0 =~~= rest.0
                    &&& full.1 =~~= rest.1
                    &&& full.2 =~~= namesv(cnames@) + rest.2
                }),
                self@.enabled_simple_rules == en_s,
                self@.disabled_simple_rules == dis_s,
                self@.enabled_rule_results == st0.enabled_rule_results,
                self@.disabled_rule_results == st0.disabled_rule_results,
            decreases nn - j,
        {
            let ghost pass_en = self@.enabled_compound_rules;
            let ghost pass_dis = self@.disabled_compound_rules;
            let ghost name_v = simple_names[j as int];
            let ghost cnames_start = namesv(cnames@);
            let ghost mut pass_collected: Seq<Seq<char>> = Seq::empty();
            let mut ii: usize = 0;
            let mut clen = self.enabled_compound_rules.len();
            while ii < clen
                invariant
                    nn == names@.len(),
                    namesv(names@) == simple_names,
                    0 <= j < nn,
                    name_v == simple_names[j as int],
                    clen == self@.enabled_compound_rules.len(),
                    0 <= ii <= clen,
                    namesv(cnames@) =~~= cnames_start + pass_collected,
                    ({
                        let full = compound_pass(pass_en, pass_dis, name_v, d, 0);
                        let rest = compound_pass(
                            self@.enabled_compound_rules,
                            self@.disabled_compound_rules,
                            name_v,
                            d,
                            ii as int,
                        );
                        &&& full.0 =~~= rest.0
                        &&& full.1 =~~= rest.1
                        &&& full.2 =~~= pass_collected + rest.2
                    }),
                    self@.enabled_simple_rules == en_s,
                    self@.disabled_simple_rules == dis_s,
                    self@.enabled_rule_results == st0.enabled_rule_results,
                    self@.disabled_rule_results == st0.disabled_rule_results,
                decreases clen - ii,
            {
                let ghost cur_en = self@.enabled_compound_rules;
                let name_ref: &String = &names[j];
                proof {
                    assert(name_ref@ == name_v);
                }
                let adv = {
                    let r = &mut self.enabled_compound_rules.entries[ii].1;
                    r.advance(&(name_ref, d))
                };
                proof {
                    let step = compound_advance_full(cur_en[ii as int].1, name_v, d);
                    assert(self@.enabled_compound_rules =~~= cur_en.update(
                        ii as int,
                        (cur_en[ii as int].0, step.0),
                    ));
                }
                if adv.res_type == AdvancingResultType::Completed {
                    let (cn, cr) = self.enabled_compound_rules.take_at(ii);
                    proof {
                        let step = compound_advance_full(cur_en[ii as int].1, name_v, d);
                        assert(self@.enabled_compound_rules =~~= cur_en.remove(ii as int));
                        assert(cr@ == step.0);
                    }
                    self.disabled_compound_rules.insert(cn.clone(), cr);
                    proof {
                        pass_collected = pass_collected.push(cn@);
                        assert(namesv(cnames@.push(cn)) =~= namesv(cnames@).push(cn@));
                        assert(pass_collected =~= pass_collected.drop_last() + seq![cn@]);
                        assert((pass_collected.drop_last() + seq![cn@]) + compound_pass(
                            self@.enabled_compound_rules,
                            self@.disabled_compound_rules,
                            name_v,
                            d,
                            ii as int,
                        ).2 =~= pass_collected.drop_last() + (seq![cn@] + compound_pass(
                            self@.enabled_compound_rules,
                            self@.disabled_compound_rules,
                            name_v,
                            d,
                            ii as int,
                        ).2));
                    }
                    cnames.push(cn);
                    clen = clen - 1;
                } else if adv.res_type == AdvancingResultType::Restarted {
                    let cn = self.enabled_compound_rules.key_at(ii).clone();
                    proof {
                        pass_collected = pass_collected.push(cn@);
                        assert(namesv(cnames@.push(cn)) =~= namesv(cnames@).push(cn@));
                        assert(pass_collected =~= pass_collected.drop_last() + seq![cn@]);
                        assert((pass_collected.drop_last() + seq![cn@]) + compound_pass(
                            self@.enabled_compound_rules,
                            self@.disabled_compound_rules,
                            name_v,
                            d,
                            ii as int + 1,
                        ).2 =~= pass_collected.drop_last() + (seq![cn@] + compound_pass(
                            self@.enabled_compound_rules,
                            self@.disabled_compound_rules,
                            name_v,
                            d,
                            ii as int + 1,
                        ).2));
                    }
                    cnames.push(cn);
                    ii += 1;
                } else {
                    ii += 1;
                }
            }
            j += 1;
        }
        let ghost en_c = self@.enabled_compound_rules;
        let ghost dis_c = self@.disabled_compound_rules;
        let ghost comp_names = namesv(cnames@);
        proof {
            let full = compound_phase(pre_ce, pre_cd, simple_names, d, 0);
            assert(en_c =~~= full.0);
            assert(dis_c =~~= full.1);
            assert(comp_names =~~= full.2);
            assert(namesv(cnames@) + Seq::<Seq<char>>::empty() =~= namesv(cnames@));
        }

        // Result phase over the unified completed-name list.
        let mut cnames = cnames;
        names.append(&mut cnames);
        let ghost all_names = simple_names + comp_names;
        proof {
            assert(namesv(names@) =~= all_names);
        }
        let ghost pre_re = self@.enabled_rule_results;
        let ghost pre_rd = self@.disabled_rule_results;
        let mut out: Vec<(RuleResultKind, Vec<String>)> = Vec::new();
        let ghost mut ora: Seq<int> = Seq::empty();
        let na = names.len();
        let mut j: usize = 0;
        while j < na
            invariant
                na == names@.len(),
                namesv(names@) == all_names,
                na == all_names.len(),
                0 <= j <= na,
                ({
                    let p = result_phase_prefix(pre_re, pre_rd, all_names, ora, j as int);
                    &&& self@.enabled_rule_results =~~= p.0
                    &&& self@.disabled_rule_results =~~= p.1
                    &&& datas_view(out@) =~~= p.2
                    &&& ora.len() == p.3
                }),
                s@ == sampler_after(s0, ora.len() as int),
                s0 is Scripted ==> s0->Scripted_1 >= 0,
                s0 is Scripted ==> ora =~= Seq::new(
                    ora.len(),
                    |m: int| ora_at(scripted_remaining(s0), m),
                ),
                self@.enabled_simple_rules == en_s,
                self@.disabled_simple_rules == dis_s,
                self@.enabled_compound_rules == en_c,
                self@.disabled_compound_rules == dis_c,
            decreases na - j,
        {
            let ghost ora_pre = ora;
            let ghost k_pre = ora.len() as int;
            let ghost s_pre = s@;
            let name_ref: &String = &names[j];
            let pos = self.enabled_rule_results.index_of(name_ref.as_str());
            proof {
                lemma_phase3_consumed(pre_re, pre_rd, all_names, ora, j as int);
            }
            if let Some(pi) = pos {
                let ghost cur_en = self@.enabled_rule_results;
                let (adv, lora) = {
                    let r = &mut self.enabled_rule_results.entries[pi].1;
                    r.advance_sampled(s)
                };
                proof {
                    let local = result_adv(cur_en[pi as int].1, lora@);
                    assert(result_step_ok(
                        cur_en[pi as int].1,
                        s_pre,
                        self@.enabled_rule_results[pi as int].1,
                        datas_view(adv.data->0@),
                        adv.res_type,
                        s@,
                        lora@,
                    ));
                    ora = ora + lora@;
                    // the prefix so far is unchanged by the extension
                    lemma_phase3_extend(pre_re, pre_rd, all_names, ora_pre, lora@, j as int);
                    // the local oracle is what the extended oracle offers here
                    assert(ora.skip(k_pre) =~= lora@);
                    crate::rule_result::lemma_result_adv_consumed(cur_en[pi as int].1, lora@);
                    // sampler bookkeeping
                    crate::sampler::lemma_sampler_after_add(s0, k_pre, lora@.len() as int);
                    if s0 is Scripted {
                        assert forall|m: int| 0 <= m < lora@.len() implies lora@[m] == ora_at(
                            scripted_remaining(s0),
                            k_pre + m,
                        ) by {
                            assert(lora@[m] == ora_at(scripted_remaining(s_pre), m));
                            crate::sampler::lemma_remaining_after(s0, k_pre, m);
                        }
                        assert(ora =~= Seq::new(
                            ora.len(),
                            |m: int| ora_at(scripted_remaining(s0), m),
                        ));
                    }
                }
                if adv.res_type == AdvancingResultType::Completed {
                    let (rn, rv) = self.enabled_rule_results.take_at(pi);
                    proof {
                        assert(self@.enabled_rule_results =~~= cur_en.remove(pi as int));
                    }
                    self.disabled_rule_results.insert(rn, rv);
                }
                let mut emitted = match adv.data {
                    Some(dd) => dd,
                    None => Vec::new(),
                };
                proof {
                    assert(datas_view(out@ + emitted@) =~= datas_view(out@) + datas_view(
                        emitted@,
                    ));
                }
                out.append(&mut emitted);
            } else {
                proof {
                    lemma_phase3_extend(pre_re, pre_rd, all_names, ora, Seq::empty(), j as int);
                    assert(ora + Seq::<int>::empty() =~= ora);
                }
            }
            j += 1;
        }
        let ghost en_r = self@.enabled_rule_results;
        let ghost dis_r = self@.disabled_rule_results;
        let ghost datas = datas_view(out@);

        // Special-action phase: apply the restarts.
        let ghost res_s0 = (
            self@.enabled_simple_rules,
            self@.disabled_simple_rules,
            self@.enabled_compound_rules,
            self@.disabled_compound_rules,
        );
        let no = out.len();
        let mut j: usize = 0;
        while j < no
            invariant
                no == out@.len(),
                datas_view(out@) == datas,
                no == datas.len(),
                0 <= j <= no,
                apply_restarts(res_s0.0, res_s0.1, res_s0.2, res_s0.3, datas, 0) == apply_restarts(
                    self@.enabled_simple_rules,
                    self@.disabled_simple_rules,
                    self@.enabled_compound_rules,
                    self@.disabled_compound_rules,
                    datas,
                    j as int,
                ),
                self@.enabled_rule_results == en_r,
                self@.disabled_rule_results == dis_r,
            decreases no - j,
        {
            if out[j].0 == RuleResultKind::Restart {
                let ghost args_v = datas[j as int].1;
                let ghost arg_s0 = (
                    self@.enabled_simple_rules,
                    self@.disabled_simple_rules,
                    self@.enabled_compound_rules,
                    self@.disabled_compound_rules,
                );
                let na2 = out[j].1.len();
                let mut a: usize = 0;
                while a < na2
                    invariant
                        no == out@.len(),
                        datas_view(out@) == datas,
                        0 <= j < no,
                        args_v == datas[j as int].1,
                        na2 == out@[j as int].1@.len(),
                        na2 == args_v.len(),
                        0 <= a <= na2,
                        restart_args(arg_s0.0, arg_s0.1, arg_s0.2, arg_s0.3, args_v, 0)
                            == restart_args(
                            self@.enabled_simple_rules,
                            self@.disabled_simple_rules,
                            self@.enabled_compound_rules,
                            self@.disabled_compound_rules,
                            args_v,
                            a as int,
                        ),
                        self@.enabled_rule_results == en_r,
                        self@.disabled_rule_results == dis_r,
                    decreases na2 - a,
                {
                    let arg: &String = &out[j].1[a];
                    proof {
                        assert(arg@ == args_v[a as int]);
                    }
                    let removed = self.disabled_simple_rules.remove(arg.as_str());
                    if let Some(rl) = removed {
                        self.enabled_simple_rules.insert(arg.clone(), rl);
                    }
                    let removed_c = self.disabled_compound_rules.remove(arg.as_str());
                    if let Some(rl) = removed_c {
                        self.enabled_compound_rules.insert(arg.clone(), rl);
                    }
                    a += 1;
                }
            }
            j += 1;
        }

        proof {
            assert(update_step_ok(
                old(self)@,
                event@,
                old(s)@,
                self@,
                datas_view(out@),
                s@,
                ora,
            ));
        }
        (out, Ghost(ora))
    }

    /// One update of the state by one event, drawing any random picks from
    /// the given sampler. With a scripted sampler the outcome — post-state,
    /// emissions and sampler position — is a function of the pre-state, the
    /// event and the script alone.
    pub fn update_sampled(&mut self, event: &Event, s: &mut Sampler) -> (r: Vec<
        (RuleResultKind, Vec<String>),
    >)
        requires
            old(self)@.enabled_compound_rules.len() > 0 ==> event_has_date(event@),
        ensures
            exists|ora: Seq<int>|
                #[trigger] update_step_ok(
                    old(self)@,
                    event@,
                    old(s)@,
                    final(self)@,
                    datas_view(r@),
                    final(s)@,
                    ora,
                ),
    {
        let (out, ora) = self.update_core(event, s);
        proof {
            assert(update_step_ok(
                old(self)@,
                event@,
                old(s)@,
                self@,
                datas_view(out@),
                s@,
                ora@,
            ));
        }
        out
    }

    /// One update of the state by one event, drawing any random picks from
    /// the process-wide random number generator.
    pub fn update(&mut self, event: &Event) -> (r: Vec<(RuleResultKind, Vec<String>)>)
        requires
            old(self)@.enabled_compound_rules.len() > 0 ==> event_has_date(event@),
        ensures
            exists|ora: Seq<int>|
                #[trigger] update_step_ok(
                    old(self)@,
                    event@,
                    SamplerModel::System,
                    final(self)@,
                    datas_view(r@),
                    SamplerModel::System,
                    ora,
                ),
    {
        let mut s = Sampler::System;
        let (out, ora) = self.update_core(event, &mut s);
        proof {
            assert(update_step_ok(
                old(self)@,
                event@,
                SamplerModel::System,
                self@,
                datas_view(out@),
                SamplerModel::System,
                ora@,
            ));
        }
        out
    }
}

} // verus!
