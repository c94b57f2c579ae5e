use beeline::h1::{Action, ActionConflict, CaptureId, MatchId};

#[test]
fn done_combines_with_a_start_capture() {
    let start = Action::StartCapture(CaptureId(3));
    assert_eq!(Action::Done.push(start), Ok(Action::StartCaptureAndDone(CaptureId(3))));
    assert_eq!(start.push(Action::Done), Ok(Action::StartCaptureAndDone(CaptureId(3))));
}

#[test]
fn done_combines_with_an_end_capture() {
    let end = Action::EndCapture(CaptureId(1), MatchId(2));
    assert_eq!(end.push(Action::Done), Ok(Action::EndCaptureAndDone(CaptureId(1), MatchId(2))));
    assert_eq!(
        Action::Done.push(Action::EndCaptureAndDone(CaptureId(1), MatchId(2))),
        Ok(Action::EndCaptureAndDone(CaptureId(1), MatchId(2)))
    );
}

#[test]
fn pushing_the_same_action_is_a_no_op() {
    for a in [
        Action::Done,
        Action::StartCapture(CaptureId(0)),
        Action::EndCapture(CaptureId(0), MatchId(0)),
        Action::StartCaptureAndDone(CaptureId(7)),
        Action::EndCaptureAndDone(CaptureId(7), MatchId(9)),
    ] {
        assert_eq!(a.push(a), Ok(a));
    }
}

#[test]
fn a_capture_combines_with_itself_done() {
    assert_eq!(
        Action::StartCapture(CaptureId(4)).push(Action::StartCaptureAndDone(CaptureId(4))),
        Ok(Action::StartCaptureAndDone(CaptureId(4)))
    );
    assert_eq!(
        Action::EndCaptureAndDone(CaptureId(4), MatchId(5)).push(Action::EndCapture(CaptureId(4), MatchId(5))),
        Ok(Action::EndCaptureAndDone(CaptureId(4), MatchId(5)))
    );
}

#[test]
fn different_captures_conflict() {
    let a = Action::StartCapture(CaptureId(1));
    let b = Action::EndCapture(CaptureId(1), MatchId(1));
    assert_eq!(a.push(b), Err(ActionConflict { existing: a, added: b }));
    let c = Action::StartCaptureAndDone(CaptureId(2));
    assert_eq!(a.push(c), Err(ActionConflict { existing: a, added: c }));
    let d = Action::EndCaptureAndDone(CaptureId(1), MatchId(2));
    assert_eq!(b.push(d), Err(ActionConflict { existing: b, added: d }));
}

#[test]
fn combining_is_commutative_and_associative() {
    let all = [
        Action::Done,
        Action::StartCapture(CaptureId(0)),
        Action::StartCapture(CaptureId(1)),
        Action::EndCapture(CaptureId(0), MatchId(0)),
        Action::StartCaptureAndDone(CaptureId(0)),
        Action::EndCaptureAndDone(CaptureId(0), MatchId(0)),
    ];
    for a in all {
        for b in all {
            assert_eq!(a.push(b).ok(), b.push(a).ok());
            for c in all {
                let left = a.push(b).ok().and_then(|ab| ab.push(c).ok());
                let right = b.push(c).ok().and_then(|bc| a.push(bc).ok());
                assert_eq!(left, right);
            }
        }
    }
}
