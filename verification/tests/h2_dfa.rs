use beeline::h2::dfa::Dfa;
use beeline::h2::parser::{CaptureError, Parser};
use beeline::h2::Action;
use std::collections::HashMap;

fn transitions(t: Vec<(u16, u16, u8, Action)>) -> HashMap<(u16, u8), (u16, Action)> {
    let mut map = HashMap::new();
    for (from, to, input, action) in t {
        assert!(map.insert((from, input), (to, action)).is_none());
    }
    map
}

fn walk(t: &HashMap<(u16, u8), (u16, Action)>, from: u16, s: &[u8]) -> Option<(u16, Action)> {
    let mut state = (from, Action::NoOp);
    for c in s {
        state = *t.get(&(state.0, *c))?;
    }
    Some(state)
}

#[test]
fn push_allocates_states_past_the_reserved_ones() {
    let mut b = Dfa::new(vec![0, 1]).start_pattern(0);
    b.push(&[1, 2, 3]).capture_field_value();
    let dfa = b.finish();
    let t = transitions(dfa.iter_transitions());
    assert_eq!(t.len(), 3);
    assert_eq!(t[&(0, 1)], (2, Action::NoOp));
    assert_eq!(t[&(2, 2)], (3, Action::NoOp));
    assert_eq!(t[&(3, 3)], (4, Action::CaptureFieldValue(0)));
}

#[test]
fn patterns_reuse_transitions() {
    let mut b = Dfa::new(vec![0, 1]).start_pattern(0);
    b.push(&[7, 8]).capture_field_value();
    let mut b = b.finish().start_pattern(0);
    b.push(&[7, 9]).capture_field_value();
    let dfa = b.finish();
    let t = transitions(dfa.iter_transitions());
    assert_eq!(t.len(), 3);
    assert_eq!(walk(&t, 0, &[7, 8]), Some((3, Action::CaptureFieldValue(0))));
    assert_eq!(walk(&t, 0, &[7, 9]), Some((4, Action::CaptureFieldValue(1))));
}

#[test]
fn reserved_states_may_be_anywhere() {
    let mut b = Dfa::new(vec![5, 0, 5, 2]).start_pattern(5);
    b.push(&[1, 1, 1]);
    let dfa = b.finish();
    let t = transitions(dfa.iter_transitions());
    assert_eq!(walk(&t, 5, &[1]), Some((1, Action::NoOp)));
    assert_eq!(walk(&t, 5, &[1, 1]), Some((3, Action::NoOp)));
    assert_eq!(walk(&t, 5, &[1, 1, 1]), Some((4, Action::NoOp)));
}

#[test]
fn insert_transition_returns_the_replaced_one() {
    let mut dfa = Dfa::new(vec![0]);
    assert_eq!(dfa.insert_transition(0, 1, 9, Action::NoOp), None);
    assert_eq!(dfa.insert_transition(0, 2, 9, Action::Done), Some((1, Action::NoOp)));
    let t = transitions(dfa.iter_transitions());
    assert_eq!(t[&(0, 9)], (2, Action::Done));
}

#[test]
fn capture_hdr_follows_the_huffman_coded_name() {
    // RFC 7541, C.4.3: "custom-key" is Huffman coded as 25a8 49e9 5ba9 7d7f
    let p = Parser::new().capture_hdr("custom-key").expect("capture");
    let t = transitions(p.iter_transitions());
    assert_eq!(t.len(), 8);
    let code = [0x25, 0xa8, 0x49, 0xe9, 0x5b, 0xa9, 0x7d, 0x7f];
    assert_eq!(walk(&t, 0, &code), Some((9, Action::CaptureFieldValue(0))));
}

#[test]
fn capture_hdr_numbers_captures_in_order() {
    let p = Parser::new()
        .capture_hdr("custom-key")
        .and_then(|p| p.capture_hdr("user-agent"))
        .expect("capture");
    let t = transitions(p.iter_transitions());
    let captures: Vec<Action> = t.values().map(|v| v.1).filter(|a| *a != Action::NoOp).collect();
    assert_eq!(captures.len(), 2);
    assert!(captures.contains(&Action::CaptureFieldValue(0)));
    assert!(captures.contains(&Action::CaptureFieldValue(1)));
}

#[test]
fn capture_hdr_refuses_an_empty_name() {
    assert!(matches!(Parser::new().capture_hdr(""), Err(CaptureError::InvalidHeaderName)));
}

#[test]
fn capture_hdr_runs_out_of_capture_ids() {
    let mut p = Parser::new();
    for i in 0..255u32 {
        p = p.capture_hdr(&format!("h{i}")).expect("capture");
    }
    assert!(matches!(p.capture_hdr("one-more"), Err(CaptureError::TooManyCaptures)));
}

#[test]
fn capture_hdr_refuses_names_whose_code_does_not_fit() {
    // 'x' has a 7-bit code: 80000 of them take 70000 bytes, more than the
    // state ids left
    let long = "x".repeat(80000);
    assert!(matches!(Parser::new().capture_hdr(&long), Err(CaptureError::TooManyStates)));
}

#[test]
fn replace_functions_leave_the_patterns() {
    let p = Parser::new()
        .capture_hdr("custom-key")
        .expect("capture")
        .replace_parse_msg("parse_h2")
        .replace_extract("extract_h2_match")
        .replace_matched("matched_h2")
        .replace_parse_buf("parse_buf")
        .replace_parse_skb("parse_skb");
    assert_eq!(p.iter_transitions().len(), 8);
}

#[test]
fn inject_writes_each_transition_at_its_state_and_byte() {
    let codes = beeline::preface::ActionCodes { start_capture: 0x8000, end_capture: 0x4000, done: 0x2000, id_mask: 0x0fff };
    let p = Parser::new().capture_hdr("custom-key").expect("capture");
    let blank = beeline::h2::parser::Transition { state: 0xffff, action: 0xffff };
    let mut table = vec![vec![blank; 256]; 16];
    p.inject(&codes, &mut table);
    let code = [0x25u8, 0xa8, 0x49, 0xe9, 0x5b, 0xa9, 0x7d, 0x7f];
    let mut state = 0u16;
    for (i, c) in code.iter().enumerate() {
        let entry = table[state as usize][*c as usize];
        let expected_action = if i == code.len() - 1 { 0x8000 } else { 0 };
        assert_eq!(entry.action, expected_action);
        assert_ne!(entry.state, 0xffff);
        state = entry.state;
    }
    assert_eq!(state, 9);
    let written = table.iter().flatten().filter(|e| **e != blank).count();
    assert_eq!(written, 8);
}

#[test]
fn capture_hdr_lowercases_the_name() {
    let upper = Parser::new().capture_hdr("Custom-Key").expect("capture");
    let lower = Parser::new().capture_hdr("custom-key").expect("capture");
    assert_eq!(transitions(upper.iter_transitions()), transitions(lower.iter_transitions()));
}

#[test]
fn capture_hdr_refuses_names_that_are_no_token() {
    assert!(matches!(Parser::new().capture_hdr("bad name"), Err(CaptureError::InvalidHeaderName)));
    assert!(matches!(Parser::new().capture_hdr(":path"), Err(CaptureError::InvalidHeaderName)));
    assert!(matches!(Parser::new().capture_hdr("caf\u{e9}"), Err(CaptureError::InvalidHeaderName)));
    assert!(Parser::new().capture_hdr("x-a_b.c~1").is_ok());
}
