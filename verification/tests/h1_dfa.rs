use beeline::h1::dfa::{Dfa, RangeBound};
use beeline::h1::{Action, CaptureId, MatchId, StateId};
use std::collections::HashMap;

type Transitions = HashMap<(StateId, char), (StateId, Option<Action>)>;

fn transitions(dfa: &Dfa) -> Transitions {
    let mut map = HashMap::new();
    for (from, to, input, action) in dfa.iter_transitions() {
        assert!(map.insert((from, input), (to, action)).is_none());
    }
    map
}

fn walk(t: &Transitions, from: StateId, s: &str) -> Option<StateId> {
    let mut state = from;
    for c in s.chars() {
        state = t.get(&(state, c))?.0;
    }
    Some(state)
}

#[test]
fn a_new_dfa_has_the_reserved_states_only() {
    let dfa = Dfa::new();
    assert!(dfa.iter_transitions().is_empty());
    let mut states = dfa.iter_states();
    states.sort_by_key(|s| s.0);
    assert_eq!(states, vec![StateId(0), StateId(1)]);
}

#[test]
fn push_inserts_both_cases_of_letters() {
    let mut b = Dfa::new().start_pattern(true);
    b.push("a-b");
    let dfa = b.finish();
    let t = transitions(&dfa);
    assert_eq!(t.len(), 5);
    assert_eq!(t[&(StateId(0), 'a')].0, StateId(2));
    assert_eq!(t[&(StateId(0), 'A')].0, StateId(2));
    assert_eq!(t[&(StateId(2), '-')].0, StateId(3));
    assert_eq!(t[&(StateId(3), 'b')].0, StateId(4));
    assert_eq!(t[&(StateId(3), 'B')].0, StateId(4));
    assert_eq!(walk(&t, StateId(0), "A-B"), Some(StateId(4)));
    assert_eq!(walk(&t, StateId(0), "a-B"), Some(StateId(4)));
    let mut states = dfa.iter_states();
    states.sort_by_key(|s| s.0);
    assert_eq!(states, (0..5).map(StateId).collect::<Vec<_>>());
}

#[test]
fn patterns_share_their_common_prefix() {
    let mut b = Dfa::new().start_pattern(false);
    b.push("ab");
    let mut b = b.finish().start_pattern(false);
    b.push("ac");
    let dfa = b.finish();
    let t = transitions(&dfa);
    assert_eq!(walk(&t, StateId(1), "ab"), Some(StateId(3)));
    assert_eq!(walk(&t, StateId(1), "ac"), Some(StateId(4)));
    assert_eq!(t.len(), 6);
}

#[test]
fn captures_start_and_end_at_states() {
    let mut b = Dfa::new().start_pattern(true);
    b.start_capturing().push("x").push("y").end_capturing().push("z");
    b.done();
    let dfa = b.finish();
    let t = transitions(&dfa);
    // the capture starts at the initial state, which no transition enters
    assert_eq!(t[&(StateId(0), 'x')], (StateId(2), None));
    assert_eq!(t[&(StateId(2), 'y')].1, Some(Action::EndCapture(CaptureId(0), MatchId(0))));
    assert_eq!(t[&(StateId(3), 'z')].1, Some(Action::Done));
}

#[test]
fn start_capture_action_is_carried_by_the_start_state() {
    let mut b = Dfa::new().start_pattern(true);
    b.push("a").start_capturing().push("b").end_capturing();
    let dfa = b.finish();
    let t = transitions(&dfa);
    // state 2 starts the capture: the transition into it carries its action
    assert_eq!(t[&(StateId(0), 'a')], (StateId(2), Some(Action::StartCapture(CaptureId(0)))));
    assert_eq!(t[&(StateId(2), 'b')], (StateId(3), Some(Action::EndCapture(CaptureId(0), MatchId(0)))));
}

#[test]
fn optional_strings_loop_back_to_the_state_before_the_next_input() {
    let mut b = Dfa::new().start_pattern(false);
    b.push("a").push_optional(" ").push(":");
    let dfa = b.finish();
    let t = transitions(&dfa);
    let a = walk(&t, StateId(1), "a").unwrap();
    assert_eq!(walk(&t, StateId(1), "a "), Some(a));
    assert_eq!(walk(&t, StateId(1), "a   :"), walk(&t, StateId(1), "a:"));
}

#[test]
fn push_any_requires_the_least_number_of_characters() {
    let mut b = Dfa::new().start_pattern(false);
    b.push_any(RangeBound::Included(2), RangeBound::Included(2)).push("!");
    let dfa = b.finish();
    let t = transitions(&dfa);
    assert_eq!(walk(&t, StateId(1), "**!"), Some(StateId(4)));
    assert_eq!(walk(&t, StateId(1), "*!"), None);
}

#[test]
fn unbounded_push_any_loops() {
    let mut b = Dfa::new().start_pattern(false);
    b.push("k").push_any(RangeBound::Unbounded, RangeBound::Unbounded);
    let dfa = b.finish();
    let t = transitions(&dfa);
    let k = walk(&t, StateId(1), "k").unwrap();
    assert_eq!(walk(&t, StateId(1), "k****"), Some(k));
}

#[test]
fn restart_with_leads_where_the_input_leads_from_the_any_state() {
    let mut b = Dfa::new().start_pattern(false);
    b.push("\r\n");
    let dfa = b.finish();
    let t = transitions(&dfa);
    let crlf = walk(&t, StateId(1), "\r\n").unwrap();
    let mut b = dfa.start_pattern(true);
    b.push("GET");
    b.restart_with("\r\n");
    let dfa = b.finish();
    let t = transitions(&dfa);
    assert_eq!(walk(&t, StateId(0), "GET\r\n"), Some(crlf));
}

#[test]
fn with_reserved_skips_the_reserved_states() {
    let mut b = Dfa::with_reserved(2, 3).start_pattern(true);
    b.push("abc*");
    let dfa = b.finish();
    let t = transitions(&dfa);
    assert_eq!(walk(&t, StateId(2), "abc*"), Some(StateId(5)));
    assert_eq!(t[&(StateId(2), 'a')].0, StateId(0));
    assert_eq!(t[&(StateId(0), 'b')].0, StateId(1));
    let mut states = dfa.iter_states();
    states.sort_by_key(|s| s.0);
    assert_eq!(states, (0..6).map(StateId).collect::<Vec<_>>());
}


#[test]
fn captures_are_numbered_in_configuration_order() {
    let mut b = Dfa::new().start_pattern(true);
    b.start_capturing().push("a").end_capturing();
    let mut b = b.finish().start_pattern(false);
    b.start_capturing().push("b").end_capturing();
    let dfa = b.finish();
    let t = transitions(&dfa);
    assert_eq!(t[&(StateId(0), 'a')].1, Some(Action::EndCapture(CaptureId(0), MatchId(0))));
    assert_eq!(t[&(StateId(1), 'b')].1, Some(Action::EndCapture(CaptureId(1), MatchId(1))));
}

#[test]
fn restart_with_allocates_where_the_any_state_has_no_transition() {
    let mut b = Dfa::new().start_pattern(true);
    b.push("x");
    b.restart_with("y");
    let dfa = b.finish();
    let t = transitions(&dfa);
    // "y" leads nowhere from the any state yet: a fresh state is allocated
    let end = walk(&t, StateId(0), "xy").unwrap();
    assert_eq!(end, StateId(3));
    assert_eq!(walk(&t, StateId(1), "y"), None);
}

#[test]
fn push_any_with_an_excluded_start_requires_more_than_it() {
    let mut b = Dfa::new().start_pattern(true);
    b.push_any(RangeBound::Excluded(1), RangeBound::Included(2));
    let dfa = b.finish();
    let t = transitions(&dfa);
    assert_eq!(t.len(), 2);
    assert_eq!(walk(&t, StateId(0), "**"), Some(StateId(3)));
    assert_eq!(walk(&t, StateId(0), "*"), Some(StateId(2)));
}

#[test]
fn push_any_up_to_one_makes_one_character_optional() {
    let mut b = Dfa::new().start_pattern(true);
    b.push_any(RangeBound::Included(0), RangeBound::Included(1)).push("a");
    let dfa = b.finish();
    let t = transitions(&dfa);
    let a = walk(&t, StateId(0), "a").unwrap();
    assert_eq!(walk(&t, StateId(0), "*a"), Some(a));
    // the optional string loops back to where it started
    assert_eq!(walk(&t, StateId(0), "**a"), Some(a));
}

#[test]
fn push_any_with_an_excluded_end_admits_less_than_it() {
    let mut b = Dfa::new().start_pattern(true);
    b.push_any(RangeBound::Included(1), RangeBound::Excluded(3)).push("a");
    let dfa = b.finish();
    let t = transitions(&dfa);
    let a = walk(&t, StateId(0), "*a").unwrap();
    assert_eq!(walk(&t, StateId(0), "**a"), Some(a));
    assert_eq!(walk(&t, StateId(0), "a"), None);
}
