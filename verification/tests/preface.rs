use beeline::h1::{Action, CaptureId, MatchId, StateId};
use beeline::preface::{inject_dfa, state_action_to_raw, ActionCodes, H2Dfa};
use std::collections::HashMap;

const CODES: ActionCodes = ActionCodes { start_capture: 0x8000, end_capture: 0x4000, done: 0x2000, id_mask: 0x0fff };

fn transitions(dfa: &H2Dfa) -> HashMap<(StateId, char), (StateId, Option<Action>)> {
    let mut map = HashMap::new();
    for (from, to, input, action) in dfa.iter_transitions() {
        assert!(map.insert((from, input), (to, action)).is_none());
    }
    map
}

fn walk(
    t: &HashMap<(StateId, char), (StateId, Option<Action>)>,
    from: StateId,
    s: &str,
) -> Option<(StateId, Option<Action>)> {
    let mut state = (from, None);
    for c in s.chars() {
        state = *t.get(&(state.0, c))?;
    }
    Some(state)
}

#[test]
fn preface_is_matched_from_the_initial_state() {
    let mut dfa = H2Dfa::new(0, 1);
    assert_eq!((dfa.s_init, dfa.s_any), (0, 1));
    dfa.match_preface().expect("preface");
    let t = transitions(&dfa);
    let (_, end_capture) = walk(&t, StateId(0), "PRI * HTTP/2.0\r\n\r\nS").expect("request line and S");
    assert_eq!(end_capture, Some(Action::EndCapture(CaptureId(0), MatchId(0))));
    let (_, done) = walk(&t, StateId(0), "PRI * HTTP/2.0\r\n\r\nSM\r\n\r\n").expect("preface");
    assert_eq!(done, Some(Action::Done));
    assert_eq!(walk(&t, StateId(0), "pri * http/2.0\r\n\r\nsm\r\n\r\n").map(|s| s.1), Some(Some(Action::Done)));
    assert_eq!(walk(&t, StateId(1), "PRI"), None);
}

#[test]
fn preface_states_skip_the_reserved_ones() {
    let mut dfa = H2Dfa::new(3, 7);
    dfa.match_preface().expect("preface");
    let t = transitions(&dfa);
    assert!(walk(&t, StateId(3), "PRI * HTTP/2.0\r\n\r\nSM\r\n\r\n").is_some());
    let states = dfa.iter_states();
    assert!(states.contains(&StateId(3)));
    assert!(states.contains(&StateId(7)));
    for (from, to, _, _) in dfa.iter_transitions() {
        assert_ne!(to, StateId(7));
        assert_ne!(from, StateId(7));
        assert!(states.contains(&from) && states.contains(&to));
    }
}

#[test]
fn actions_are_packed_above_the_state() {
    assert_eq!(state_action_to_raw(5, None, &CODES), 5);
    assert_eq!(state_action_to_raw(5, Some(Action::Done), &CODES), 0x2000_0005);
    assert_eq!(state_action_to_raw(1, Some(Action::StartCapture(CaptureId(3))), &CODES), 0x8003_0001);
    assert_eq!(
        state_action_to_raw(2, Some(Action::EndCapture(CaptureId(1), MatchId(2))), &CODES),
        0x4042_0002
    );
    assert_eq!(
        state_action_to_raw(2, Some(Action::EndCaptureAndDone(CaptureId(1), MatchId(2))), &CODES),
        0x6042_0002
    );
    assert_eq!(
        state_action_to_raw(9, Some(Action::StartCaptureAndDone(CaptureId(0x1fff))), &CODES),
        0xafff_0009
    );
}

#[test]
fn inject_dfa_fills_the_table_by_state_and_input() {
    let mut dfa = H2Dfa::new(0, 1);
    dfa.match_preface().expect("preface");
    let mut table = vec![vec![0u32; 256]; 64];
    inject_dfa(&dfa, &CODES, &mut table);
    let mut filled = 0;
    for (from, to, input, action) in dfa.iter_transitions() {
        assert_eq!(table[from.0 as usize][input as usize], state_action_to_raw(to.0, action, &CODES));
        filled += 1;
    }
    let nonzero = table.iter().flatten().filter(|v| **v != 0).count();
    assert_eq!(nonzero, filled);
    assert_eq!(table[0]['P' as usize] & 0xffff, table[0]['p' as usize] & 0xffff);
}

#[test]
fn preface_twice_conflicts_and_leaves_the_dfa() {
    let mut dfa = H2Dfa::new(0, 1);
    dfa.match_preface().expect("preface");
    let before = transitions(&dfa);
    assert!(dfa.match_preface().is_err());
    assert_eq!(transitions(&dfa), before);
}
