//! The engine's global laws: within every rule family the enabled and
//! disabled mappings stay disjoint, and one update never loses a rule name —
//! whatever the event and whatever the random picks. Alongside them, the
//! vacuity of empty parts and the effect of a reset, stated over the same
//! models the advancement contracts use.

use vstd::prelude::*;

use crate::compound_rule::compound_advance_full;
use crate::event::EventPartValue;
use crate::named_map::{
    lemma_nm_index_of, lemma_nm_index_of_remove, lemma_nm_index_of_same_keys,
    lemma_nm_insert_keys, lemma_nm_remove_unique, nm_get, nm_has_key, nm_index_of, nm_insert,
    nm_remove, nm_unique_keys,
};
use crate::outcome::AdvancingResultType;
use crate::rule_result::RuleResultKind;
use crate::sampler::ora_at;
use crate::scalar::{Date, PartScalar};
use crate::simple_rule::{
    part_universal_adv, simple_rule_reset, wrapped_reset, PartModel, SimpleRuleModel,
    SimpleRuleSeq, WrappedPartModel,
};
use crate::state::{
    apply_restarts, compound_pass, compound_phase, move_completed_simple, restart_args,
    result_phase_prefix, simple_phase_prefix, update_spec, StateModel,
};

verus! {

/// One rule family is well formed: names unique on both sides and no name
/// enabled and disabled at once.
pub open spec fn pair_wf<X>(en: Seq<(Seq<char>, X)>, dis: Seq<(Seq<char>, X)>) -> bool {
    &&& nm_unique_keys(en)
    &&& nm_unique_keys(dis)
    &&& forall|k: Seq<char>|
        #![trigger nm_has_key(en, k)]
        #![trigger nm_has_key(dis, k)]
        !(nm_has_key(en, k) && nm_has_key(dis, k))
}

/// The names living in one family (enabled or disabled) are the same before
/// and after.
pub open spec fn pair_same_names<X>(
    en0: Seq<(Seq<char>, X)>,
    dis0: Seq<(Seq<char>, X)>,
    en1: Seq<(Seq<char>, X)>,
    dis1: Seq<(Seq<char>, X)>,
) -> bool {
    forall|k: Seq<char>|
        #![trigger nm_has_key(en1, k)]
        #![trigger nm_has_key(dis1, k)]
        #![trigger nm_has_key(en0, k)]
        #![trigger nm_has_key(dis0, k)]
        (nm_has_key(en1, k) || nm_has_key(dis1, k)) <==> (nm_has_key(en0, k) || nm_has_key(
            dis0,
            k,
        ))
}

/// The whole state is well formed: all three families are.
pub open spec fn state_wf(st: StateModel) -> bool {
    &&& pair_wf(st.enabled_simple_rules, st.disabled_simple_rules)
    &&& pair_wf(st.enabled_compound_rules, st.disabled_compound_rules)
    &&& pair_wf(st.enabled_rule_results, st.disabled_rule_results)
}

/// Updating an entry's value in place keeps the key structure.
pub proof fn lemma_keys_same<X>(m1: Seq<(Seq<char>, X)>, m2: Seq<(Seq<char>, X)>)
    requires
        m1.len() == m2.len(),
        forall|j: int| 0 <= j < m1.len() ==> (#[trigger] m1[j]).0 == m2[j].0,
    ensures
        forall|k: Seq<char>|
            #![trigger nm_has_key(m1, k)]
            #![trigger nm_has_key(m2, k)]
            nm_has_key(m1, k) <==> nm_has_key(m2, k),
        nm_unique_keys(m1) <==> nm_unique_keys(m2),
{
    assert forall|k: Seq<char>|
        #![trigger nm_has_key(m1, k)]
        #![trigger nm_has_key(m2, k)]
        nm_has_key(m1, k) <==> nm_has_key(m2, k) by {
        lemma_nm_index_of_same_keys(m1, m2, k);
    }
    if nm_unique_keys(m1) {
        assert forall|a: int, b: int| 0 <= a < b < m2.len() implies (#[trigger] m2[a]).0 != (
        #[trigger] m2[b]).0 by {
            assert(m1[a].0 == m2[a].0);
            assert(m1[b].0 == m2[b].0);
        }
    }
    if nm_unique_keys(m2) {
        assert forall|a: int, b: int| 0 <= a < b < m1.len() implies (#[trigger] m1[a]).0 != (
        #[trigger] m1[b]).0 by {
            assert(m1[a].0 == m2[a].0);
            assert(m1[b].0 == m2[b].0);
        }
    }
}

/// Under unique keys, the entry at `i` is indexed at `i`.
pub proof fn lemma_index_of_entry<X>(m: Seq<(Seq<char>, X)>, i: int)
    requires
        nm_unique_keys(m),
        0 <= i < m.len(),
    ensures
        nm_index_of(m, m[i].0) == i,
{
    lemma_nm_index_of(m, m[i].0);
    crate::named_map::lemma_nm_index_of_from_scan_key(m, i);
    let q = nm_index_of(m, m[i].0);
    if q != i {
        assert(m[q].0 == m[i].0);
    }
}

/// Moving the entry at index `i` from the enabled to the disabled side (with
/// any value) keeps the family well formed and its name set intact.
pub proof fn lemma_move_at<X>(
    en: Seq<(Seq<char>, X)>,
    dis: Seq<(Seq<char>, X)>,
    i: int,
    v: X,
)
    requires
        pair_wf(en, dis),
        0 <= i < en.len(),
    ensures
        pair_wf(en.remove(i), nm_insert(dis, en[i].0, v)),
        pair_same_names(en, dis, en.remove(i), nm_insert(dis, en[i].0, v)),
{
    let n = en[i].0;
    let en2 = en.remove(i);
    let dis2 = nm_insert(dis, n, v);
    lemma_nm_remove_unique(en, i);
    lemma_index_of_entry(en, i);
    assert forall|k: Seq<char>| true implies {
        &&& (#[trigger] nm_has_key(en2, k) <==> (nm_has_key(en, k) && k != n))
        &&& (#[trigger] nm_has_key(dis2, k) <==> (nm_has_key(dis, k) || k == n))
    } by {
        lemma_nm_index_of_remove(en, i, k);
        lemma_nm_insert_keys(dis, n, v, k);
        lemma_nm_index_of(en, k);
        if nm_has_key(en, k) && k == n {
        }
    }
    lemma_nm_insert_keys(dis, n, v, n);
    assert(nm_unique_keys(dis2)) by {
        lemma_nm_insert_keys(dis, n, v, n);
    }
    assert(nm_has_key(en, n));
}

/// Moving a named entry from the disabled to the enabled side, when it is
/// there, keeps the family well formed and its name set intact; an unknown
/// name changes nothing.
pub proof fn lemma_move_back<X>(en: Seq<(Seq<char>, X)>, dis: Seq<(Seq<char>, X)>, n: Seq<char>)
    requires
        pair_wf(en, dis),
    ensures
        nm_has_key(dis, n) ==> pair_wf(nm_insert(en, n, nm_get(dis, n)), nm_remove(dis, n)),
        nm_has_key(dis, n) ==> pair_same_names(
            en,
            dis,
            nm_insert(en, n, nm_get(dis, n)),
            nm_remove(dis, n),
        ),
{
    if nm_has_key(dis, n) {
        let v = nm_get(dis, n);
        let en2 = nm_insert(en, n, v);
        let dis2 = nm_remove(dis, n);
        lemma_nm_index_of(dis, n);
        let i = nm_index_of(dis, n);
        lemma_nm_remove_unique(dis, i);
        assert forall|k: Seq<char>| true implies {
            &&& (#[trigger] nm_has_key(en2, k) <==> (nm_has_key(en, k) || k == n))
            &&& (#[trigger] nm_has_key(dis2, k) <==> (nm_has_key(dis, k) && k != n))
        } by {
            lemma_nm_insert_keys(en, n, v, k);
            lemma_nm_index_of_remove(dis, i, k);
            lemma_nm_index_of(dis, k);
        }
        lemma_nm_insert_keys(en, n, v, n);
    }
}

/// The simple phase's first half only rewrites rule bodies: every name keeps
/// its place.
pub proof fn lemma_simple_phase_keys(
    rules: Seq<(Seq<char>, SimpleRuleModel)>,
    ev: Seq<(Seq<char>, EventPartValue)>,
    j: int,
)
    ensures
        simple_phase_prefix(rules, ev, j).0.len() == rules.len(),
        forall|q: int|
            0 <= q < rules.len() ==> (#[trigger] simple_phase_prefix(rules, ev, j).0[q]).0
                == rules[q].0,
    decreases j,
{
    if 0 < j <= rules.len() {
        lemma_simple_phase_keys(rules, ev, j - 1);
    }
}

/// The simple phase's second half moves completed rules across: the family
/// stays well formed with the same names.
pub proof fn lemma_move_completed_keys(
    en: Seq<(Seq<char>, SimpleRuleModel)>,
    dis: Seq<(Seq<char>, SimpleRuleModel)>,
    comp: Seq<(AdvancingResultType, Seq<char>)>,
    j: int,
)
    requires
        pair_wf(en, dis),
    ensures
        ({
            let (en2, dis2) = move_completed_simple(en, dis, comp, j);
            pair_wf(en2, dis2) && pair_same_names(en, dis, en2, dis2)
        }),
    decreases comp.len() - j,
{
    if 0 <= j < comp.len() {
        let (t, n) = comp[j];
        if t == AdvancingResultType::Completed && nm_has_key(en, n) {
            lemma_nm_index_of(en, n);
            let i = nm_index_of(en, n);
            assert(en[i].0 == n);
            lemma_move_at(en, dis, i, nm_get(en, n));
            assert(nm_remove(en, n) == en.remove(i));
            lemma_move_completed_keys(nm_remove(en, n), nm_insert(dis, n, nm_get(en, n)), comp, j + 1);
        } else {
            lemma_move_completed_keys(en, dis, comp, j + 1);
        }
    }
}

/// One compound pass keeps the family well formed with the same names.
pub proof fn lemma_compound_pass_keys(
    en: Seq<(Seq<char>, crate::compound_rule::CompoundRuleModel)>,
    dis: Seq<(Seq<char>, crate::compound_rule::CompoundRuleModel)>,
    name: Seq<char>,
    d: Date,
    i: int,
)
    requires
        pair_wf(en, dis),
    ensures
        ({
            let p = compound_pass(en, dis, name, d, i);
            pair_wf(p.0, p.1) && pair_same_names(en, dis, p.0, p.1)
        }),
    decreases en.len() - i,
{
    if 0 <= i < en.len() {
        let (cn, cr) = en[i];
        let (cr2, t) = compound_advance_full(cr, name, d);
        if t == AdvancingResultType::Completed {
            lemma_move_at(en, dis, i, cr2);
            lemma_compound_pass_keys(en.remove(i), nm_insert(dis, cn, cr2), name, d, i);
        } else {
            let en2 = en.update(i, (cn, cr2));
            lemma_keys_same(en, en2);
            assert(pair_wf(en2, dis));
            lemma_compound_pass_keys(en2, dis, name, d, i + 1);
            lemma_keys_same(en2, en);
        }
    }
}

/// The whole compound phase keeps the family well formed with the same
/// names.
pub proof fn lemma_compound_phase_keys(
    en: Seq<(Seq<char>, crate::compound_rule::CompoundRuleModel)>,
    dis: Seq<(Seq<char>, crate::compound_rule::CompoundRuleModel)>,
    names: Seq<Seq<char>>,
    d: Date,
    j: int,
)
    requires
        pair_wf(en, dis),
    ensures
        ({
            let p = compound_phase(en, dis, names, d, j);
            pair_wf(p.0, p.1) && pair_same_names(en, dis, p.0, p.1)
        }),
    decreases names.len() - j,
{
    if 0 <= j < names.len() {
        let p = compound_pass(en, dis, names[j], d, 0);
        lemma_compound_pass_keys(en, dis, names[j], d, 0);
        lemma_compound_phase_keys(p.0, p.1, names, d, j + 1);
    }
}

/// The result phase keeps the family well formed with the same names.
pub proof fn lemma_result_phase_keys(
    en: Seq<(Seq<char>, Seq<crate::rule_result::RuleResultValueModel>)>,
    dis: Seq<(Seq<char>, Seq<crate::rule_result::RuleResultValueModel>)>,
    names: Seq<Seq<char>>,
    ora: Seq<int>,
    j: int,
)
    requires
        pair_wf(en, dis),
    ensures
        ({
            let p = result_phase_prefix(en, dis, names, ora, j);
            pair_wf(p.0, p.1) && pair_same_names(en, dis, p.0, p.1)
        }),
    decreases j,
{
    if 0 < j <= names.len() {
        lemma_result_phase_keys(en, dis, names, ora, j - 1);
        let prev = result_phase_prefix(en, dis, names, ora, j - 1);
        let name = names[j - 1];
        let pi = nm_index_of(prev.0, name);
        if pi != -1 {
            lemma_nm_index_of(prev.0, name);
            let (vals2, ds, t, used) = crate::rule_result::result_adv(
                prev.0[pi].1,
                ora.skip(prev.3),
            );
            if t == AdvancingResultType::Completed {
                assert(prev.0[pi].0 == name);
                lemma_move_at(prev.0, prev.1, pi, vals2);
            } else {
                let en2 = prev.0.update(pi, (prev.0[pi].0, vals2));
                lemma_keys_same(prev.0, en2);
            }
        }
    }
}

/// One restart argument list keeps both touched families well formed with
/// the same names.
pub proof fn lemma_restart_args_keys(
    en_s: Seq<(Seq<char>, SimpleRuleModel)>,
    dis_s: Seq<(Seq<char>, SimpleRuleModel)>,
    en_c: Seq<(Seq<char>, crate::compound_rule::CompoundRuleModel)>,
    dis_c: Seq<(Seq<char>, crate::compound_rule::CompoundRuleModel)>,
    args: Seq<Seq<char>>,
    i: int,
)
    requires
        pair_wf(en_s, dis_s),
        pair_wf(en_c, dis_c),
    ensures
        ({
            let t = restart_args(en_s, dis_s, en_c, dis_c, args, i);
            pair_wf(t.0, t.1) && pair_wf(t.2, t.3) && pair_same_names(en_s, dis_s, t.0, t.1)
                && pair_same_names(en_c, dis_c, t.2, t.3)
        }),
    decreases args.len() - i,
{
    if 0 <= i < args.len() {
        let a = args[i];
        lemma_move_back(en_s, dis_s, a);
        lemma_move_back(en_c, dis_c, a);
        let (en_s2, dis_s2) = if nm_has_key(dis_s, a) {
            (nm_insert(en_s, a, nm_get(dis_s, a)), nm_remove(dis_s, a))
        } else {
            (en_s, dis_s)
        };
        let (en_c2, dis_c2) = if nm_has_key(dis_c, a) {
            (nm_insert(en_c, a, nm_get(dis_c, a)), nm_remove(dis_c, a))
        } else {
            (en_c, dis_c)
        };
        lemma_restart_args_keys(en_s2, dis_s2, en_c2, dis_c2, args, i + 1);
    }
}

/// The special-action phase keeps both touched families well formed with
/// the same names.
pub proof fn lemma_apply_restarts_keys(
    en_s: Seq<(Seq<char>, SimpleRuleModel)>,
    dis_s: Seq<(Seq<char>, SimpleRuleModel)>,
    en_c: Seq<(Seq<char>, crate::compound_rule::CompoundRuleModel)>,
    dis_c: Seq<(Seq<char>, crate::compound_rule::CompoundRuleModel)>,
    datas: Seq<(RuleResultKind, Seq<Seq<char>>)>,
    i: int,
)
    requires
        pair_wf(en_s, dis_s),
        pair_wf(en_c, dis_c),
    ensures
        ({
            let t = apply_restarts(en_s, dis_s, en_c, dis_c, datas, i);
            pair_wf(t.0, t.1) && pair_wf(t.2, t.3) && pair_same_names(en_s, dis_s, t.0, t.1)
                && pair_same_names(en_c, dis_c, t.2, t.3)
        }),
    decreases datas.len() - i,
{
    if 0 <= i < datas.len() {
        let (kind, args) = datas[i];
        if kind == RuleResultKind::Restart {
            lemma_restart_args_keys(en_s, dis_s, en_c, dis_c, args, 0);
            let t = restart_args(en_s, dis_s, en_c, dis_c, args, 0);
            lemma_apply_restarts_keys(t.0, t.1, t.2, t.3, datas, i + 1);
        } else {
            lemma_apply_restarts_keys(en_s, dis_s, en_c, dis_c, datas, i + 1);
        }
    }
}

/// Disjointness and conservation: one update of a well-formed state — by any
/// event and any pick oracle — leaves every family well formed (enabled and
/// disabled names disjoint, names unique) and keeps each family's name set
/// exactly as it was.
pub proof fn lemma_update_preserves(
    st: StateModel,
    ev: Seq<(Seq<char>, EventPartValue)>,
    ora: Seq<int>,
)
    requires
        state_wf(st),
    ensures
        state_wf(update_spec(st, ev, ora).0),
        pair_same_names(
            st.enabled_simple_rules,
            st.disabled_simple_rules,
            update_spec(st, ev, ora).0.enabled_simple_rules,
            update_spec(st, ev, ora).0.disabled_simple_rules,
        ),
        pair_same_names(
            st.enabled_compound_rules,
            st.disabled_compound_rules,
            update_spec(st, ev, ora).0.enabled_compound_rules,
            update_spec(st, ev, ora).0.disabled_compound_rules,
        ),
        pair_same_names(
            st.enabled_rule_results,
            st.disabled_rule_results,
            update_spec(st, ev, ora).0.enabled_rule_results,
            update_spec(st, ev, ora).0.disabled_rule_results,
        ),
{
    let (rules2, comp) = simple_phase_prefix(
        st.enabled_simple_rules,
        ev,
        st.enabled_simple_rules.len() as int,
    );
    lemma_simple_phase_keys(st.enabled_simple_rules, ev, st.enabled_simple_rules.len() as int);
    lemma_keys_same(st.enabled_simple_rules, rules2);
    assert(pair_wf(rules2, st.disabled_simple_rules));
    lemma_move_completed_keys(rules2, st.disabled_simple_rules, comp, 0);
    let (en_s, dis_s) = move_completed_simple(rules2, st.disabled_simple_rules, comp, 0);
    let simple_names = Seq::new(comp.len(), |i: int| comp[i].1);
    let d = crate::state::event_date(ev);
    lemma_compound_phase_keys(
        st.enabled_compound_rules,
        st.disabled_compound_rules,
        simple_names,
        d,
        0,
    );
    let (en_c, dis_c, comp_names) = compound_phase(
        st.enabled_compound_rules,
        st.disabled_compound_rules,
        simple_names,
        d,
        0,
    );
    let all_names = simple_names + comp_names;
    lemma_result_phase_keys(
        st.enabled_rule_results,
        st.disabled_rule_results,
        all_names,
        ora,
        all_names.len() as int,
    );
    let (en_r, dis_r, datas, k) = result_phase_prefix(
        st.enabled_rule_results,
        st.disabled_rule_results,
        all_names,
        ora,
        all_names.len() as int,
    );
    lemma_apply_restarts_keys(en_s, dis_s, en_c, dis_c, datas, 0);
}

/// One update never looks past the picks it draws: extending the pick
/// oracle beyond them changes nothing.
pub proof fn lemma_update_spec_extend(
    st: StateModel,
    ev: Seq<(Seq<char>, EventPartValue)>,
    ora: Seq<int>,
    ext: Seq<int>,
)
    requires
        update_spec(st, ev, ora).2 <= ora.len(),
    ensures
        update_spec(st, ev, ora + ext) == update_spec(st, ev, ora),
{
    let (rules2, comp) = simple_phase_prefix(
        st.enabled_simple_rules,
        ev,
        st.enabled_simple_rules.len() as int,
    );
    let (en_s, dis_s) = move_completed_simple(rules2, st.disabled_simple_rules, comp, 0);
    let simple_names = Seq::new(comp.len(), |i: int| comp[i].1);
    let d = crate::state::event_date(ev);
    let (en_c, dis_c, comp_names) = compound_phase(
        st.enabled_compound_rules,
        st.disabled_compound_rules,
        simple_names,
        d,
        0,
    );
    let all_names = simple_names + comp_names;
    crate::state::lemma_phase3_extend(
        st.enabled_rule_results,
        st.disabled_rule_results,
        all_names,
        ora,
        ext,
        all_names.len() as int,
    );
}

/// Determinism under a fixed script: two updates of the same state by the
/// same event against the same scripted sampler end in the same state, emit
/// the same outcomes, and leave the sampler at the same position.
pub proof fn lemma_scripted_update_deterministic(
    st: StateModel,
    ev: Seq<(Seq<char>, EventPartValue)>,
    s0: crate::sampler::SamplerModel,
    st1: StateModel,
    ds1: Seq<(RuleResultKind, Seq<Seq<char>>)>,
    s1: crate::sampler::SamplerModel,
    ora1: Seq<int>,
    st2: StateModel,
    ds2: Seq<(RuleResultKind, Seq<Seq<char>>)>,
    s2: crate::sampler::SamplerModel,
    ora2: Seq<int>,
)
    requires
        crate::state::update_step_ok(st, ev, s0, st1, ds1, s1, ora1),
        crate::state::update_step_ok(st, ev, s0, st2, ds2, s2, ora2),
        s0 is Scripted,
    ensures
        st1 == st2,
        ds1 == ds2,
        s1 == s2,
{
    let f = crate::sampler::scripted_remaining(s0);
    if ora1.len() <= ora2.len() {
        assert(ora2 =~= ora1 + ora2.skip(ora1.len() as int)) by {
            assert forall|m: int| 0 <= m < ora1.len() implies ora1[m] == ora2[m] by {
                assert(ora1[m] == ora_at(f, m));
                assert(ora2[m] == ora_at(f, m));
            }
        }
        lemma_update_spec_extend(st, ev, ora1, ora2.skip(ora1.len() as int));
    } else {
        assert(ora1 =~= ora2 + ora1.skip(ora2.len() as int)) by {
            assert forall|m: int| 0 <= m < ora2.len() implies ora1[m] == ora2[m] by {
                assert(ora1[m] == ora_at(f, m));
                assert(ora2[m] == ora_at(f, m));
            }
        }
        lemma_update_spec_extend(st, ev, ora2, ora1.skip(ora2.len() as int));
    }
}

/// Empty-values vacuity: a part whose residual values are empty advances to
/// `Completed` (unchanged) on any datum of its kind — for every discipline
/// but a selected weekday, which keeps waiting for its day. (A part
/// selecting, say, the first weekday still yields nothing on an event dated
/// to any other day.)
pub proof fn lemma_empty_values_vacuous<T: PartScalar>(p: PartModel<T>, d: T)
    requires
        p.values.len() == 0,
        p.seq == SimpleRuleSeq::Any || p.seq == SimpleRuleSeq::All || p.seq == SimpleRuleSeq::Order,
    ensures
        part_universal_adv(p, d) == (p, AdvancingResultType::Completed, None::<int>),
{
}

/// Empty-values vacuity for date streaks: an empty streak buffer is
/// complete on any date.
pub proof fn lemma_empty_streak_vacuous(p: PartModel<Date>, d: Date, n: u32)
    requires
        p.values.len() == 0,
        p.seq == SimpleRuleSeq::Streak(n),
    ensures
        crate::simple_rule::part_date_adv(p, d) == (p, AdvancingResultType::Completed, None::<int>),
{
}

/// Reset idempotence: resetting a rule makes every part's residual values
/// its original snapshot, field by field, and changes nothing else.
pub proof fn lemma_reset_restores(r: SimpleRuleModel, i: int)
    requires
        0 <= i < r.parts.len(),
    ensures
        simple_rule_reset(r).iterations == r.iterations,
        simple_rule_reset(r).parts.len() == r.parts.len(),
        simple_rule_reset(r).parts[i].0 == r.parts[i].0,
        ({
            let w = simple_rule_reset(r).parts[i].1;
            let w0 = r.parts[i].1;
            match (w, w0) {
                (WrappedPartModel::Number(p), WrappedPartModel::Number(p0)) => p.values
                    == p0.og_values && p.og_values == p0.og_values && p.seq == p0.seq,
                (WrappedPartModel::Time(p), WrappedPartModel::Time(p0)) => p.values == p0.og_values
                    && p.og_values == p0.og_values && p.seq == p0.seq,
                (WrappedPartModel::Date(p), WrappedPartModel::Date(p0)) => p.values == p0.og_values
                    && p.og_values == p0.og_values && p.seq == p0.seq,
                _ => false,
            }
        }),
{
    assert(simple_rule_reset(r).parts[i] == (r.parts[i].0, wrapped_reset(r.parts[i].1)));
}


/// A freshly built state is well formed: every family starts from its given
/// pairs with unique names, all enabled, nothing disabled — so, with
/// `lemma_update_preserves`, disjointness holds at every observable moment
/// of a state's life.
pub proof fn lemma_new_state_wf(
    st: StateModel,
    ps: Seq<(Seq<char>, SimpleRuleModel)>,
    pc: Seq<(Seq<char>, crate::compound_rule::CompoundRuleModel)>,
    pr: Seq<(Seq<char>, Seq<crate::rule_result::RuleResultValueModel>)>,
)
    requires
        st.enabled_simple_rules == crate::named_map::nm_from_pairs(ps),
        st.enabled_compound_rules == crate::named_map::nm_from_pairs(pc),
        st.enabled_rule_results == crate::named_map::nm_from_pairs(pr),
        st.disabled_simple_rules.len() == 0,
        st.disabled_compound_rules.len() == 0,
        st.disabled_rule_results.len() == 0,
    ensures
        state_wf(st),
{
    crate::named_map::lemma_nm_from_pairs_unique(ps);
    crate::named_map::lemma_nm_from_pairs_unique(pc);
    crate::named_map::lemma_nm_from_pairs_unique(pr);
    assert forall|k: Seq<char>| !#[trigger] nm_has_key(st.disabled_simple_rules, k) by {
        lemma_nm_index_of(st.disabled_simple_rules, k);
    }
    assert forall|k: Seq<char>| !#[trigger] nm_has_key(st.disabled_compound_rules, k) by {
        lemma_nm_index_of(st.disabled_compound_rules, k);
    }
    assert forall|k: Seq<char>| !#[trigger] nm_has_key(st.disabled_rule_results, k) by {
        lemma_nm_index_of(st.disabled_rule_results, k);
    }
}

} // verus!
