use eventsystem::event::{Event, EventPartValue};
use eventsystem::outcome::{Advancing, AdvancingResultType};
use eventsystem::parser::{
    parse_compound_rule, parse_rule_result, parse_simple_rule, RuleResultParseError,
    SimpleRuleParseError,
};
use eventsystem::rule_result::RuleResultKind;
use eventsystem::sampler::Sampler;
use eventsystem::scalar::{Date, Time};
use eventsystem::simple_rule::{SimpleRulePartValue, WrappedSimpleRulePart};
use eventsystem::state::State;

fn d(y: i32, m: u32, day: u32) -> Date {
    Date::from_ymd(y, m, day).unwrap()
}

fn t(h: u32, m: u32) -> Time {
    Time::from_hm(h, m).unwrap()
}

fn default_event() -> Event {
    let parts = [
        ("player", EventPartValue::NumberBased(1)),
        ("did", EventPartValue::NumberBased(1)),
        ("with", EventPartValue::NumberBased(1)),
        ("on", EventPartValue::DateBased(d(2000, 1, 1))),
        ("at", EventPartValue::TimeBased(t(10, 0))),
    ]
    .into_iter()
    .map(|(kw, val)| (kw.to_string(), val))
    .collect();
    Event::new(parts)
}

#[test]
fn scenario_single_simple_completion() {
    let mut state = State::new(
        vec![parse_simple_rule("r: player 1 did 1 with 1").unwrap()],
        vec![],
        vec![],
    );
    let out = state.update(&default_event());
    assert_eq!(out, vec![]);
    assert_eq!(state.enabled_simple_rules.len(), 0);
    assert_eq!(state.disabled_simple_rules.len(), 1);
    assert!(state.disabled_simple_rules.get("r").is_some());
}

#[test]
fn scenario_all_seq_partial_completion() {
    let mut state = State::new(
        vec![parse_simple_rule("r: player 1 did 1 with all(1,2)").unwrap()],
        vec![],
        vec![],
    );
    let out = state.update(&default_event());
    assert_eq!(out, vec![]);
    assert_eq!(state.enabled_simple_rules.len(), 1);
    let rule = state.enabled_simple_rules.remove("r").unwrap();
    let mut parts = rule.parts;
    match parts.remove("with").unwrap() {
        WrappedSimpleRulePart::Number(p) => {
            assert_eq!(p.values, vec![SimpleRulePartValue::exact(2u32)]);
        },
        _ => panic!("the with part holds numbers"),
    }
}

#[test]
fn scenario_compound_cascade() {
    let mut state = State::new(
        vec![parse_simple_rule("s1: player 1 did 1 with all(1)").unwrap()],
        vec![parse_compound_rule("c1: any s1").unwrap()],
        vec![parse_rule_result("c1 -> msg Hi").unwrap()],
    );
    let out = state.update(&default_event());
    assert_eq!(out, vec![(RuleResultKind::Message, vec!["Hi".to_string()])]);
    assert!(state.disabled_simple_rules.get("s1").is_some());
    assert!(state.disabled_compound_rules.get("c1").is_some());
    assert!(state.disabled_rule_results.get("c1").is_some());
}

#[test]
fn scenario_restart_cycles_simple_rule() {
    let mut state = State::new(
        vec![parse_simple_rule("sr: player 1 did 1 with all(1)").unwrap()],
        vec![parse_compound_rule("cr: any sr").unwrap()],
        vec![parse_rule_result("cr -> restart sr").unwrap()],
    );
    let out = state.update(&default_event());
    assert_eq!(out, vec![(RuleResultKind::Restart, vec!["sr".to_string()])]);
    assert!(state.enabled_simple_rules.get("sr").is_some());
    assert!(state.disabled_simple_rules.get("sr").is_none());
    assert!(state.disabled_compound_rules.get("cr").is_some());
}

#[test]
fn scenario_repeat_keeps_rule_enabled() {
    let mut state = State::new(
        vec![parse_simple_rule("sr: repeat + player 1 did 1 with all(1)").unwrap()],
        vec![parse_compound_rule("cr: repeat any sr").unwrap()],
        vec![parse_rule_result("cr -> repeat msg Thanks").unwrap()],
    );
    let expected = vec![(RuleResultKind::Message, vec!["Thanks".to_string()])];
    assert_eq!(state.update(&default_event()), expected);
    assert_eq!(state.update(&default_event()), expected);
    assert_eq!(state.update(&default_event()), expected);
    assert_eq!(state.enabled_simple_rules.len(), 1);
    assert_eq!(state.enabled_compound_rules.len(), 1);
    assert_eq!(state.enabled_rule_results.len(), 1);
}

#[test]
fn scenario_reward_argument_grouping() {
    let mut res = parse_rule_result("n -> reward seq 1 pkt 1 badge").unwrap().res;
    let first = res.advance(&());
    assert_eq!(first.res_type, AdvancingResultType::Hit);
    assert_eq!(
        first.data,
        Some(vec![(RuleResultKind::Reward, vec!["1".to_string(), "pkt".to_string()])])
    );
    let second = res.advance(&());
    assert_eq!(second.res_type, AdvancingResultType::Completed);
    assert_eq!(
        second.data,
        Some(vec![(RuleResultKind::Reward, vec!["1".to_string(), "badge".to_string()])])
    );
}

fn random_state() -> State {
    State::new(
        vec![
            parse_simple_rule("s1: player 1").unwrap(),
            parse_simple_rule("s2: did 1").unwrap(),
        ],
        vec![],
        vec![
            parse_rule_result("s1 -> repeat msg random_once a b c d e").unwrap(),
            parse_rule_result("s2 -> reward random x 1 y 2 z 3").unwrap(),
        ],
    )
}

#[test]
fn determinism_under_scripted_sampler() {
    let script = vec![4, 2, 5, 1, 3, 2];
    let mut st1 = random_state();
    let mut st2 = random_state();
    let mut sam1 = Sampler::Scripted(script.clone(), 0);
    let mut sam2 = Sampler::Scripted(script, 0);
    let ev = default_event();
    let out1a = st1.update_sampled(&ev, &mut sam1);
    let out2a = st2.update_sampled(&ev, &mut sam2);
    assert_eq!(out1a, out2a);
    let out1b = st1.update_sampled(&ev, &mut sam1);
    let out2b = st2.update_sampled(&ev, &mut sam2);
    assert_eq!(out1b, out2b);
}

#[test]
fn scripted_sampler_picks_chosen_group() {
    let mut res = parse_rule_result("n -> msg random_once a b c").unwrap().res;
    let mut sam = Sampler::Scripted(vec![2], 0);
    let adv = res.advance_sampled(&mut sam).0;
    assert_eq!(adv.res_type, AdvancingResultType::Hit);
    assert_eq!(adv.data, Some(vec![(RuleResultKind::Message, vec!["b".to_string()])]));
}

#[test]
fn system_sampler_stays_in_range() {
    let mut sam = Sampler::System;
    assert_eq!(sam.next(1), 1);
    for _ in 0..32 {
        let p = sam.next(5);
        assert!(1 <= p && p <= 5);
    }
}

#[test]
fn calendar_day_numbers_are_consecutive() {
    assert_eq!(d(2000, 1, 2).days, d(2000, 1, 1).days + 1);
    assert_eq!(d(2000, 3, 1).days, d(2000, 2, 29).days + 1);
    assert_eq!(d(1970, 1, 1).days, 0);
    assert!(Date::from_ymd(2001, 2, 29).is_none());
    assert!(Date::from_ymd(2000, 13, 1).is_none());
}

#[test]
fn weekday_of_known_dates() {
    assert_eq!(d(1970, 1, 1).weekday_from_monday(), 4);
    assert_eq!(d(2000, 1, 1).weekday_from_monday(), 6);
    assert_eq!(d(2000, 1, 3).weekday_from_monday(), 1);
}

#[test]
fn simple_rule_error_variants() {
    assert!(matches!(
        parse_simple_rule("player 1"),
        Err(SimpleRuleParseError::NoMatch)
    ));
    assert!(matches!(
        parse_simple_rule("n: cookie(1) player"),
        Err(SimpleRuleParseError::NoMatch)
    ));
    assert!(matches!(
        parse_simple_rule("n: player cookie(1)"),
        Err(SimpleRuleParseError::UnsupportedSeq)
    ));
    assert!(matches!(
        parse_simple_rule("n: player 99999999999"),
        Err(SimpleRuleParseError::IncorrectContent)
    ));
}

#[test]
fn reward_argument_count_is_checked() {
    assert!(matches!(
        parse_rule_result("n -> reward a b c"),
        Err(RuleResultParseError::IncorrectContent)
    ));
    assert!(matches!(
        parse_rule_result("n -> offer a b c d"),
        Err(RuleResultParseError::IncorrectContent)
    ));
    assert!(parse_rule_result("n -> offer a b c").is_ok());
}

#[test]
fn update_without_compounds_needs_no_date() {
    let parts = vec![("player".to_string(), EventPartValue::NumberBased(1))];
    let ev = Event::new(parts);
    let mut state = State::new(
        vec![parse_simple_rule("r: player 1").unwrap()],
        vec![],
        vec![],
    );
    let out = state.update(&ev);
    assert_eq!(out, vec![]);
    assert_eq!(state.disabled_simple_rules.len(), 1);
}

#[test]
fn conservation_across_restarts() {
    let mut state = State::new(
        vec![
            parse_simple_rule("a: player 1").unwrap(),
            parse_simple_rule("b: did 1").unwrap(),
        ],
        vec![parse_compound_rule("c: all a b").unwrap()],
        vec![parse_rule_result("c -> restart a b").unwrap()],
    );
    for _ in 0..4 {
        state.update(&default_event());
        assert_eq!(
            state.enabled_simple_rules.len() + state.disabled_simple_rules.len(),
            2
        );
        assert_eq!(
            state.enabled_compound_rules.len() + state.disabled_compound_rules.len(),
            1
        );
        assert_eq!(
            state.enabled_rule_results.len() + state.disabled_rule_results.len(),
            1
        );
    }
}
