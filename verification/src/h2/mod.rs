//! HTTP/2 parsing.
//!
//! A pattern is the Huffman encoded name of a header field; the DFA it is
//! compiled into runs over the bytes of a header block, and the value that
//! follows a matched name is captured by the action of the last transition.
use vstd::prelude::*;

pub mod dfa;
pub mod laws;
pub mod parser;

verus! {

/// The action a transition carries.
#[derive(Clone, Copy, Debug, PartialEq, Eq, Structural)]
pub enum Action {
    /// Captures the value of the field whose name ends with this transition,
    /// under the given capture id.
    CaptureFieldValue(u8),
    /// Terminates parsing.
    Done,
    /// Does nothing: the transition only leads on.
    NoOp,
}

} // verus!
