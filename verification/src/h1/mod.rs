//! HTTP/1.x parsing.
//!
//! Patterns are compiled into a DFA over characters. The kernel side walks a
//! message byte by byte, follows the transition table and runs the action of
//! every state it enters, which is what turns a pattern into a captured range.
use vstd::prelude::*;

pub mod dfa;
pub mod laws;
pub mod parser;

verus! {

/// Identifies a state of the DFA.
///
/// The DFA reserves two states: the one a message is parsed from, and the one
/// that input matching no pattern leads back to.
#[derive(Clone, Copy, Debug, PartialEq, Eq, Hash, Structural)]
pub struct StateId(pub u16);

/// Identifies a range that is being captured.
///
/// The parser keeps one start index per capture id while it walks a message.
/// [`Action::EndCapture`] turns that index into a match.
#[derive(Clone, Copy, Debug, PartialEq, Eq, Hash, Structural)]
pub struct CaptureId(pub u16);

/// Identifies a captured range in the parse result. Captures are numbered in
/// the order in which they are configured.
#[derive(Clone, Copy, Debug, PartialEq, Eq, Hash, Structural)]
pub struct MatchId(pub u16);

/// The action a single state carries. A state either starts or ends a capture,
/// and optionally terminates parsing.
#[derive(Clone, Copy, Debug, PartialEq, Eq, Structural)]
pub enum Action {
    /// Starts capturing a range, whose start index is identified by the id.
    StartCapture(CaptureId),
    /// Ends capturing the range started under the capture id (first field);
    /// the range is reported under the match id (second field).
    EndCapture(CaptureId, MatchId),
    /// Terminates parsing.
    Done,
    /// Starts capturing a range and terminates parsing.
    StartCaptureAndDone(CaptureId),
    /// Ends capturing a range and terminates parsing.
    EndCaptureAndDone(CaptureId, MatchId),
}

/// The capturing part of an [`Action`], apart from whether it terminates.
#[derive(Clone, Copy, Debug, PartialEq, Eq, Structural)]
pub enum Capture {
    Start(CaptureId),
    End(CaptureId, MatchId),
}

/// Two actions that cannot share a state: they capture different ranges.
#[derive(Clone, Copy, Debug, PartialEq, Eq, Structural)]
pub struct ActionConflict {
    /// The action the state carried.
    pub existing: Action,
    /// The action that was added to it.
    pub added: Action,
}

impl Action {
    /// The range this action starts or ends, if any.
    pub open spec fn capture(self) -> Option<Capture> {
        match self {
            Action::StartCapture(cid) => Some(Capture::Start(cid)),
            Action::EndCapture(cid, mid) => Some(Capture::End(cid, mid)),
            Action::Done => None,
            Action::StartCaptureAndDone(cid) => Some(Capture::Start(cid)),
            Action::EndCaptureAndDone(cid, mid) => Some(Capture::End(cid, mid)),
        }
    }

    /// Whether this action terminates parsing.
    pub open spec fn is_done(self) -> bool {
        match self {
            Action::Done | Action::StartCaptureAndDone(_) | Action::EndCaptureAndDone(_, _) => true,
            _ => false,
        }
    }

    /// The action made of a capture and a termination flag; an action
    /// without capture always terminates.
    pub open spec fn from_parts(capture: Option<Capture>, done: bool) -> Action {
        match capture {
            None => Action::Done,
            Some(Capture::Start(cid)) => if done {
                Action::StartCaptureAndDone(cid)
            } else {
                Action::StartCapture(cid)
            },
            Some(Capture::End(cid, mid)) => if done {
                Action::EndCaptureAndDone(cid, mid)
            } else {
                Action::EndCapture(cid, mid)
            },
        }
    }

    /// Two actions can share a state unless they capture different ranges.
    pub open spec fn compatible(self, other: Action) -> bool {
        self.capture() is None || other.capture() is None || self.capture() == other.capture()
    }

    /// The action a state carries once both `self` and `other` were added to
    /// it: the capture of either, terminating if either terminates.
    pub open spec fn combine(self, other: Action) -> Option<Action> {
        if self.compatible(other) {
            Some(
                Action::from_parts(
                    if self.capture() is Some {
                        self.capture()
                    } else {
                        other.capture()
                    },
                    self.is_done() || other.is_done(),
                ),
            )
        } else {
            None
        }
    }

    /// Combines `self` with `action`. Since a state carries a single capture,
    /// this fails if the two capture different ranges. Pushing the very same
    /// action twice is a no-op, states are shared between patterns after all.
    pub fn push(self, action: Action) -> (res: Result<Action, ActionConflict>)
        ensures
            res is Ok <==> self.compatible(action),
            res matches Ok(a) ==> Some(a) == self.combine(action),
            res matches Err(e) ==> e == (ActionConflict { existing: self, added: action }),
    {
        let combined = match (self, action) {
            (Action::Done, Action::StartCapture(cid))
            | (Action::StartCapture(cid), Action::Done)
            | (Action::Done, Action::StartCaptureAndDone(cid))
            | (Action::StartCaptureAndDone(cid), Action::Done) => Action::StartCaptureAndDone(cid),
            (Action::Done, Action::EndCapture(cid, mid))
            | (Action::EndCapture(cid, mid), Action::Done)
            | (Action::Done, Action::EndCaptureAndDone(cid, mid))
            | (Action::EndCaptureAndDone(cid, mid), Action::Done) => Action::EndCaptureAndDone(
                cid,
                mid,
            ),
            (Action::StartCapture(cid), Action::StartCaptureAndDone(other))
            | (Action::StartCaptureAndDone(other), Action::StartCapture(cid)) => {
                if cid == other {
                    Action::StartCaptureAndDone(cid)
                } else {
                    return Err(ActionConflict { existing: self, added: action });
                }
            },
            (Action::EndCapture(cid, mid), Action::EndCaptureAndDone(other_cid, other_mid))
            | (Action::EndCaptureAndDone(other_cid, other_mid), Action::EndCapture(cid, mid)) => {
                if cid == other_cid && mid == other_mid {
                    Action::EndCaptureAndDone(cid, mid)
                } else {
                    return Err(ActionConflict { existing: self, added: action });
                }
            },
            (existing, added) => {
                if existing == added {
                    existing
                } else {
                    return Err(ActionConflict { existing: self, added: action });
                }
            },
        };
        Ok(combined)
    }
}

/// Adding an action to a state is commutative: the order in which two
/// patterns reach a shared state does not change what it carries.
pub proof fn lemma_combine_commutative(a: Action, b: Action)
    ensures
        a.combine(b) == b.combine(a),
{
}

/// Adding the very action a state already carries leaves it unchanged.
pub proof fn lemma_combine_idempotent(a: Action)
    ensures
        a.combine(a) == Some(a),
{
}

/// Adding actions to a state is associative: whatever order three patterns
/// add their actions in, the state ends up with the same action, or every
/// order fails.
pub proof fn lemma_combine_associative(a: Action, b: Action, c: Action)
    ensures
        (match a.combine(b) {
            Some(ab) => ab.combine(c),
            None => None,
        }) == (match b.combine(c) {
            Some(bc) => a.combine(bc),
            None => None,
        }),
{
}

} // verus!
