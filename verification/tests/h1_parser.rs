use beeline::h1::parser::{CaptureError, Parser};
use beeline::header::{METHOD, PATH, STATUS};
use beeline::h1::{Action, CaptureId, MatchId, StateId};
use beeline::preface::{state_action_to_raw, ActionCodes};
use std::collections::HashMap;

type Transitions = HashMap<(StateId, char), (StateId, Option<Action>)>;

const CODES: ActionCodes = ActionCodes { start_capture: 0x8000, end_capture: 0x4000, done: 0x2000, id_mask: 0x0fff };

fn transitions(p: &Parser) -> Transitions {
    let mut map = HashMap::new();
    for (from, to, input, action) in p.iter_transitions() {
        assert!(map.insert((from, input), (to, action)).is_none());
    }
    map
}

fn walk(t: &Transitions, from: StateId, s: &str) -> Option<(StateId, Option<Action>)> {
    let mut state = (from, None);
    for c in s.chars() {
        state = *t.get(&(state.0, c))?;
    }
    Some(state)
}

#[test]
fn a_new_parser_has_the_reserved_states_only() {
    let p = Parser::new();
    let mut states = p.iter_states();
    states.sort_by_key(|s| s.0);
    assert_eq!(states, vec![StateId(0), StateId(1)]);
    assert!(p.iter_transitions().is_empty());
}

#[test]
fn replacing_functions_keeps_the_patterns() {
    let p = Parser::new()
        .match_h2_preface().expect("preface")
        .replace_parse_msg("parse_msg")
        .replace_parse_skb("parse_skb")
        .replace_parse_buf("parse_buf")
        .replace_matched("matched")
        .replace_extract("extract");
    assert_eq!(transitions(&p), transitions(&Parser::new().match_h2_preface().expect("preface")));
}

#[test]
fn h2_preface_is_captured_and_terminates_parsing() {
    let p = Parser::new().match_h2_preface().expect("preface");
    let t = transitions(&p);
    assert_eq!(
        walk(&t, StateId(0), "PRI * HTTP/2.0\r\n\r\nS").map(|s| s.1),
        Some(Some(Action::EndCapture(CaptureId(0), MatchId(0))))
    );
    assert_eq!(walk(&t, StateId(0), "PRI * HTTP/2.0\r\n\r\nSM\r\n\r\n").map(|s| s.1), Some(Some(Action::Done)));
    assert_eq!(walk(&t, StateId(0), "GET / HTTP/1.1"), None);
    assert!(t.keys().all(|(from, _)| *from != StateId(1)));
}

#[test]
fn empty_line_terminates_the_header_section() {
    let p = Parser::new().done_on_hdr_end().expect("header end");
    let t = transitions(&p);
    assert_eq!(t.len(), 4);
    assert_eq!(walk(&t, StateId(1), "\r\n\r\n").map(|s| s.1), Some(Some(Action::Done)));
    assert_eq!(walk(&t, StateId(1), "\r\n").map(|s| s.1), Some(None));
    assert_eq!(walk(&t, StateId(0), "\r"), None);
}

#[test]
fn preface_and_header_end_compose_in_either_order() {
    let a = Parser::new().match_h2_preface().expect("preface").done_on_hdr_end().expect("header end");
    let ta = transitions(&a);
    assert_eq!(walk(&ta, StateId(0), "PRI * HTTP/2.0\r\n\r\nSM\r\n\r\n").map(|s| s.1), Some(Some(Action::Done)));
    assert_eq!(walk(&ta, StateId(1), "\r\n\r\n").map(|s| s.1), Some(Some(Action::Done)));
    let b = Parser::new().done_on_hdr_end().expect("header end").match_h2_preface().expect("preface");
    let tb = transitions(&b);
    assert_eq!(walk(&tb, StateId(0), "PRI * HTTP/2.0\r\n\r\nSM\r\n\r\n").map(|s| s.1), Some(Some(Action::Done)));
    assert_eq!(walk(&tb, StateId(1), "\r\n\r\n").map(|s| s.1), Some(Some(Action::Done)));
}

#[test]
fn inject_writes_each_transition_at_its_state_and_input() {
    let p = Parser::new().done_on_hdr_end().expect("header end");
    let mut table = vec![vec![7u32; 128]; 8];
    p.inject(&CODES, &mut table);
    let t = transitions(&p);
    for ((from, input), (to, action)) in &t {
        assert_eq!(table[from.0 as usize][*input as usize], state_action_to_raw(to.0, *action, &CODES));
    }
    let (end, _) = walk(&t, StateId(1), "\r\n\r\n").unwrap();
    let (before, _) = walk(&t, StateId(1), "\r\n\r").unwrap();
    assert_eq!(table[before.0 as usize]['\n' as usize], ((0x2000u32) << 16) | end.0 as u32);
    assert_eq!(table[0]['\r' as usize], 7);
    assert_eq!(table[1]['a' as usize], 7);
}

#[test]
fn header_value_is_captured_up_to_the_end_of_the_line() {
    let p = Parser::new().match_h2_preface().expect("preface").capture_hdr("user-agent").expect("capture");
    let t = transitions(&p);
    let any = StateId(1);
    assert_eq!(walk(&t, any, "\r\nuser-agent:").map(|s| s.1), Some(Some(Action::StartCapture(CaptureId(1)))));
    assert_eq!(
        walk(&t, any, "\r\nUser-Agent: *\r").map(|s| s.1),
        Some(Some(Action::EndCapture(CaptureId(1), MatchId(1))))
    );
    assert_eq!(walk(&t, any, "\r\nuser-agent\t : \t**\r").map(|s| s.1), walk(&t, any, "\r\nuser-agent:*\r").map(|s| s.1));
    assert_eq!(walk(&t, any, "\r\nuser-agent: *\r\n").map(|s| s.0), walk(&t, any, "\r\n").map(|s| s.0));
}

#[test]
fn subsequent_headers_are_numbered_in_order() {
    let p = Parser::new()
        .match_h2_preface().expect("preface")
        .capture_hdr("user-agent")
        .and_then(|p| p.capture_hdr("accept-language"))
        .expect("capture");
    let t = transitions(&p);
    let any = StateId(1);
    assert_eq!(
        walk(&t, any, "\r\nuser-agent:*\r").map(|s| s.1),
        Some(Some(Action::EndCapture(CaptureId(1), MatchId(1))))
    );
    assert_eq!(
        walk(&t, any, "\r\naccept-language:*\r").map(|s| s.1),
        Some(Some(Action::EndCapture(CaptureId(2), MatchId(2))))
    );
}

#[test]
fn capturing_a_header_twice_conflicts() {
    let p = Parser::new().capture_hdr("host").expect("capture");
    assert!(matches!(p.capture_hdr("host"), Err(CaptureError::Conflict)));
}

#[test]
fn preface_after_method_conflicts() {
    // both start a capture at the initial state
    let p = Parser::new().capture_hdr(METHOD).expect("capture");
    assert!(matches!(p.match_h2_preface(), Err(CaptureError::Conflict)));
}

#[test]
fn method_is_captured_up_to_the_first_space() {
    let p = Parser::new().capture_hdr(METHOD).expect("capture");
    let t = transitions(&p);
    let init = StateId(0);
    assert_eq!(walk(&t, init, "*"), Some((init, Some(Action::StartCapture(CaptureId(0))))));
    assert_eq!(walk(&t, init, "** ").map(|s| s.1), Some(Some(Action::EndCapture(CaptureId(0), MatchId(0)))));
    assert!(walk(&t, init, "* * HTTP/1.1").is_some());
}

#[test]
fn request_target_and_status_code_are_captured_from_the_first_line() {
    let p = Parser::new().capture_hdr(PATH).expect("capture");
    let t = transitions(&p);
    let init = StateId(0);
    assert_eq!(walk(&t, init, "* ").map(|s| s.1), Some(Some(Action::StartCapture(CaptureId(0)))));
    assert_eq!(
        walk(&t, init, "* * HTTP/1.1\r").map(|s| s.1),
        Some(Some(Action::EndCapture(CaptureId(0), MatchId(0))))
    );
    let p = Parser::new().capture_hdr(STATUS).expect("capture");
    let t = transitions(&p);
    assert_eq!(walk(&t, init, "HTTP/1.1 ").map(|s| s.1), Some(Some(Action::StartCapture(CaptureId(0)))));
    assert_eq!(
        walk(&t, init, "HTTP/1.1 *\r").map(|s| s.1),
        Some(Some(Action::EndCapture(CaptureId(0), MatchId(0))))
    );
}

#[test]
fn method_after_request_target_conflicts() {
    let p = Parser::new().capture_hdr(PATH).expect("capture");
    assert!(matches!(p.capture_hdr(METHOD), Err(CaptureError::Conflict)));
}
