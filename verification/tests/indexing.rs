use beeline::h2::parser::CaptureError;
use beeline::h2::Action;
use beeline::header::{METHOD, PATH, STATUS};
use beeline::indexing::{static_name_index, Parser};

#[test]
fn static_names_have_their_rfc_indices() {
    assert_eq!(static_name_index(":authority"), Some(1));
    assert_eq!(static_name_index("accept-charset"), Some(15));
    assert_eq!(static_name_index("content-type"), Some(31));
    assert_eq!(static_name_index("user-agent"), Some(58));
    assert_eq!(static_name_index("www-authenticate"), Some(61));
}

#[test]
fn names_with_values_or_unknown_are_not_indexed() {
    assert_eq!(static_name_index(":method"), None);
    assert_eq!(static_name_index(":status"), None);
    assert_eq!(static_name_index("x-custom"), None);
    assert_eq!(static_name_index("User-Agent"), None);
    assert_eq!(static_name_index(""), None);
}

#[test]
fn indexed_name_is_a_literal_with_incremental_indexing() {
    let mut p = Parser::new(0, 1);
    assert_eq!(p.match_http_hdr("user-agent"), Ok(()));
    let t = p.iter_transitions();
    assert_eq!(t, vec![(1, 2, 0x40 | 58, Action::CaptureFieldValue(0))]);
    let mut states = p.iter_states();
    states.sort();
    assert_eq!(states, vec![0, 1, 2]);
}

#[test]
fn each_indexed_name_gets_its_own_capture() {
    let mut p = Parser::new(0, 1);
    assert_eq!(p.match_http_hdr(":authority"), Ok(()));
    assert_eq!(p.match_http_hdr("host"), Ok(()));
    let mut t = p.iter_transitions();
    t.sort_by_key(|x| (x.0, x.1, x.2));
    assert_eq!(t, vec![(1, 2, 0x41, Action::CaptureFieldValue(0)), (1, 3, 0x40 | 38, Action::CaptureFieldValue(1))]);
}

#[test]
fn unindexed_name_adds_nothing() {
    let mut p = Parser::new(0, 1);
    assert_eq!(p.match_http_hdr("x-request-id"), Ok(()));
    assert!(p.iter_transitions().is_empty());
    assert_eq!((p.s_init, p.s_any), (0, 1));
}

#[test]
fn capture_ids_run_out() {
    let mut p = Parser::new(0, 1);
    let mut n = 0;
    let err = loop {
        match p.match_http_hdr("user-agent") {
            Ok(()) => n += 1,
            Err(e) => break e,
        }
    };
    assert_eq!(err, CaptureError::TooManyCaptures);
    assert_eq!(n, 255);
}

#[test]
fn pseudo_header_names() {
    assert_eq!(METHOD, "method");
    assert_eq!(PATH, "path");
    assert_eq!(STATUS, "status");
}
