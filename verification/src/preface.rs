//! Detection of the HTTP/2 connection preface, and the encoding of a DFA
//! into the transition table of the BPF parser program.
//!
//! The table is indexed by source state and input; each entry packs the
//! action of the target state (upper 16 bits) with the target state itself
//! (lower 16 bits).
use vstd::prelude::*;
use crate::h1::{Action, StateId};
use crate::h1::dfa::{BuilderModel, Dfa, DfaModel, RangeBound};
use crate::h1::{CaptureId, MatchId};
use crate::h1::dfa::run;
use crate::h1::laws::{
    at_leaf, is_leaf, keeps_transitions, lemma_push_from_leaf, lemma_push_keeps_leaf,
    lemma_push_matches_ignoring_case, lemma_run_concat, lemma_run_keeps, only_states,
    lemma_end_capturing_with,
    lemma_builder_keeps_states,
};

verus! {

/// The line an HTTP/2 connection preface starts with.
pub const PREFACE_REQUEST_LINE: &'static str = "PRI * HTTP/2.0";

/// The end of a line.
pub const CRLF: &'static str = "\r\n";

/// What follows the empty line of the preface.
pub const PREFACE_BODY: &'static str = "SM";

/// Appends `s` to the pattern of `b`, if there is one.
pub open spec fn and_push(b: Option<BuilderModel>, s: Seq<char>) -> Option<BuilderModel> {
    match b {
        Some(b) => b.push(s),
        None => None,
    }
}

/// Ends the capture of `b` with `s`, if there is a builder.
pub open spec fn and_end_capturing_with(b: Option<BuilderModel>, s: Seq<char>) -> Option<BuilderModel> {
    match b {
        Some(b) => b.end_capturing_with(s),
        None => None,
    }
}

/// The first character of the preface's body.
pub open spec fn body_head() -> Seq<char> {
    PREFACE_BODY@.take(1)
}

/// The preface's body after its first character.
pub open spec fn body_rest() -> Seq<char> {
    PREFACE_BODY@.subrange(1, PREFACE_BODY@.len() as int)
}

/// What the preface pattern makes of `d`: from the initial state it
/// captures `PRI * HTTP/2.0\r\n\r\n`, ends the capture with `SM` (at the
/// state its first character leads to), then matches `\r\n\r\n` and
/// terminates.
pub open spec fn preface_pattern(d: DfaModel) -> Option<DfaModel> {
    let b = match BuilderModel::start(d, d.init).start_capturing() {
        Some(b) => b.push(PREFACE_REQUEST_LINE@),
        None => None,
    };
    let b = and_push(and_push(b, CRLF@), CRLF@);
    let b = and_push(and_push(and_end_capturing_with(b, PREFACE_BODY@), CRLF@), CRLF@);
    match b {
        Some(b) => match b.done() {
            Some(b) => Some(b.dfa),
            None => None,
        },
        None => None,
    }
}

/// The preface pattern compiles into any DFA whose initial state has no
/// transition and carries no action, as long as ids remain; any other such
/// state stays so.
pub proof fn lemma_preface_on_leaf(d: DfaModel, q: StateId)
    requires
        only_states(d),
        is_leaf(d, d.init),
        d.num_states <= 1000,
        d.num_captures < u16::MAX,
        d.num_matches < u16::MAX,
    ensures
        preface_pattern(d) is Some,
        only_states(preface_pattern(d)->0),
        preface_pattern(d)->0.num_states <= d.num_states + 72,
        preface_pattern(d)->0.init == d.init,
        preface_pattern(d)->0.any == d.any,
        q != d.init && d.has_state(q) && is_leaf(d, q) ==> is_leaf(preface_pattern(d)->0, q),
{
    reveal_strlit("PRI * HTTP/2.0");
    reveal_strlit("\r\n");
    reveal_strlit("SM");
    let b0 = BuilderModel::start(d, d.init);
    let b1 = b0.start_capturing()->0;
    assert(at_leaf(b1));
    lemma_push_from_leaf(b1, PREFACE_REQUEST_LINE@);
    let b2 = b1.push(PREFACE_REQUEST_LINE@)->0;
    lemma_push_from_leaf(b2, CRLF@);
    let b3 = b2.push(CRLF@)->0;
    lemma_push_from_leaf(b3, CRLF@);
    let b4 = b3.push(CRLF@)->0;
    assert(b4.end_capture is Some);
    assert(body_head() =~= seq!['S']);
    assert(body_rest() =~= seq!['M']);
    lemma_end_capturing_with(b4, PREFACE_BODY@);
    lemma_push_from_leaf(b4, body_head());
    let b5a = b4.push(body_head())->0;
    let b5 = b5a.end_capturing()->0;
    assert(only_states(b5.dfa));
    assert(at_leaf(b5));
    lemma_push_from_leaf(b5, body_rest());
    let b6 = b5.push(body_rest())->0;
    assert(b4.end_capturing_with(PREFACE_BODY@) == Some(b6));
    lemma_push_from_leaf(b6, CRLF@);
    let b7 = b6.push(CRLF@)->0;
    lemma_push_from_leaf(b7, CRLF@);
    let b8 = b7.push(CRLF@)->0;
    assert(is_leaf(b8.dfa, b8.state));
    if q != d.init && d.has_state(q) && is_leaf(d, q) {
        assert(is_leaf(b1.dfa, q));
        lemma_push_keeps_leaf(b1, PREFACE_REQUEST_LINE@, q);
        lemma_push_keeps_leaf(b2, CRLF@, q);
        lemma_push_keeps_leaf(b3, CRLF@, q);
        lemma_push_keeps_leaf(b4, body_head(), q);
        assert(is_leaf(b5.dfa, q));
        lemma_push_keeps_leaf(b5, body_rest(), q);
        lemma_push_keeps_leaf(b6, CRLF@, q);
        lemma_push_keeps_leaf(b7, CRLF@, q);
        assert(is_leaf(b8.done()->0.dfa, q));
    }
}

/// The preface pattern compiles into a DFA without patterns, whatever its
/// reserved states, as long as few ids are handed out.
pub proof fn lemma_preface_on_empty(init: StateId, any: StateId, n: u16)
    requires
        n <= 1000,
    ensures
        preface_pattern(DfaModel::empty(init, any, n)) is Some,
{
    lemma_preface_on_leaf(DfaModel::empty(init, any, n), any);
}

/// On a DFA without patterns, the preface pattern starts a capture at the
/// initial state; following `PRI * HTTP/2.0\r\n\r\n` from there leads to
/// the state that ends it (as the first match), and following the whole
/// preface, `SM\r\n\r\n` included, leads to a state that terminates
/// parsing.
pub proof fn lemma_preface_matches(init: StateId, any: StateId, n: u16)
    requires
        n <= 1000,
    ensures
        ({
            let d = preface_pattern(DfaModel::empty(init, any, n))->0;
            let head = PREFACE_REQUEST_LINE@ + CRLF@ + CRLF@;
            let whole = head + PREFACE_BODY@ + CRLF@ + CRLF@;
            &&& d.actions.contains_key(init)
            &&& d.actions[init] == Action::StartCapture(CaptureId(0))
            &&& run(d.edges, init, head + body_head()) matches Some(q) && d.actions.contains_key(q)
                && d.actions[q] == Action::EndCapture(CaptureId(0), MatchId(0))
            &&& run(d.edges, init, whole) matches Some(q) && d.actions.contains_key(q)
                && d.actions[q] == Action::Done
        }),
{
    reveal_strlit("PRI * HTTP/2.0");
    reveal_strlit("\r\n");
    reveal_strlit("SM");
    lemma_preface_on_empty(init, any, n);
    let d = DfaModel::empty(init, any, n);
    let b0 = BuilderModel::start(d, d.init);
    assert(only_states(d));
    let b1 = b0.start_capturing()->0;
    lemma_push_from_leaf(b1, PREFACE_REQUEST_LINE@);
    let b2 = b1.push(PREFACE_REQUEST_LINE@)->0;
    lemma_push_from_leaf(b2, CRLF@);
    let b3 = b2.push(CRLF@)->0;
    lemma_push_from_leaf(b3, CRLF@);
    let b4 = b3.push(CRLF@)->0;
    assert(body_head() =~= seq!['S']);
    assert(body_rest() =~= seq!['M']);
    lemma_end_capturing_with(b4, PREFACE_BODY@);
    lemma_push_from_leaf(b4, body_head());
    let b5a = b4.push(body_head())->0;
    let b5 = b5a.end_capturing()->0;
    assert(at_leaf(b5));
    lemma_push_from_leaf(b5, body_rest());
    let b6 = b5.push(body_rest())->0;
    lemma_push_from_leaf(b6, CRLF@);
    let b7 = b6.push(CRLF@)->0;
    lemma_push_from_leaf(b7, CRLF@);
    let b8 = b7.push(CRLF@)->0;
    let b9 = b8.done()->0;
    let e = b9.dfa.edges;
    lemma_push_matches_ignoring_case(b1, PREFACE_REQUEST_LINE@, PREFACE_REQUEST_LINE@);
    lemma_push_matches_ignoring_case(b2, CRLF@, CRLF@);
    lemma_push_matches_ignoring_case(b3, CRLF@, CRLF@);
    lemma_push_matches_ignoring_case(b4, body_head(), body_head());
    lemma_push_matches_ignoring_case(b5, body_rest(), body_rest());
    lemma_push_matches_ignoring_case(b6, CRLF@, CRLF@);
    lemma_push_matches_ignoring_case(b7, CRLF@, CRLF@);
    assert(keeps_transitions(b2.dfa.edges, e));
    assert(keeps_transitions(b3.dfa.edges, e));
    assert(keeps_transitions(b4.dfa.edges, e));
    assert(keeps_transitions(b5a.dfa.edges, e));
    assert(keeps_transitions(b6.dfa.edges, e));
    assert(keeps_transitions(b7.dfa.edges, e));
    lemma_run_keeps(b2.dfa.edges, e, init, PREFACE_REQUEST_LINE@);
    lemma_run_keeps(b3.dfa.edges, e, b2.state, CRLF@);
    lemma_run_keeps(b4.dfa.edges, e, b3.state, CRLF@);
    lemma_run_keeps(b5a.dfa.edges, e, b4.state, body_head());
    lemma_run_keeps(b6.dfa.edges, e, b5.state, body_rest());
    lemma_run_keeps(b7.dfa.edges, e, b6.state, CRLF@);
    lemma_run_keeps(b8.dfa.edges, e, b7.state, CRLF@);
    let l1 = PREFACE_REQUEST_LINE@;
    let l2 = l1 + CRLF@;
    let head = l2 + CRLF@;
    let l3 = head + body_head();
    let l4 = l3 + body_rest();
    let l5 = l4 + CRLF@;
    let whole = l5 + CRLF@;
    lemma_run_concat(e, init, l1, CRLF@);
    lemma_run_concat(e, init, l2, CRLF@);
    lemma_run_concat(e, init, head, body_head());
    lemma_run_concat(e, init, l3, body_rest());
    lemma_run_concat(e, init, l4, CRLF@);
    lemma_run_concat(e, init, l5, CRLF@);
    assert(run(e, init, l3) == Some(b5a.state));
    assert(head + PREFACE_BODY@ =~= l4);
    assert(run(e, init, whole) == Some(b8.state));
    assert(b9.dfa == preface_pattern(d)->0);
}

/// The preface pattern keeps the transitions and actions of a DFA within
/// its states.
pub proof fn lemma_preface_keeps_states(d: DfaModel)
    requires
        only_states(d),
        preface_pattern(d) is Some,
    ensures
        only_states(preface_pattern(d)->0),
        preface_pattern(d)->0.init == d.init,
        preface_pattern(d)->0.any == d.any,
{
    let u = RangeBound::Unbounded;
    let b0 = BuilderModel::start(d, d.init);
    let b1 = b0.start_capturing()->0;
    lemma_builder_keeps_states(b0, CRLF@, u, u);
    let b2 = b1.push(PREFACE_REQUEST_LINE@)->0;
    lemma_builder_keeps_states(b1, PREFACE_REQUEST_LINE@, u, u);
    let b3 = b2.push(CRLF@)->0;
    lemma_builder_keeps_states(b2, CRLF@, u, u);
    let b4 = b3.push(CRLF@)->0;
    lemma_builder_keeps_states(b3, CRLF@, u, u);
    let b6 = b4.end_capturing_with(PREFACE_BODY@)->0;
    lemma_builder_keeps_states(b4, PREFACE_BODY@, u, u);
    let b7 = b6.push(CRLF@)->0;
    lemma_builder_keeps_states(b6, CRLF@, u, u);
    let b8 = b7.push(CRLF@)->0;
    lemma_builder_keeps_states(b7, CRLF@, u, u);
    lemma_builder_keeps_states(b8, CRLF@, u, u);
}

/// The preface pattern conflicts with the DFA.
#[derive(Clone, Copy, Debug, PartialEq, Eq, Structural)]
pub struct PatternConflict;

/// Compiles the preface pattern into `dfa`; `None` where it conflicts.
pub(crate) fn compile_preface(dfa: Dfa) -> (r: Option<Dfa>)
    requires
        dfa.wf(),
    ensures
        r is Some <==> preface_pattern(dfa@) is Some,
        r matches Some(d) ==> d.wf() && d@ == preface_pattern(dfa@)->0,
{
    let mut b = dfa.start_pattern(true);
    if !b.try_start_capturing() {
        return None;
    }
    if !b.try_push(PREFACE_REQUEST_LINE) {
        return None;
    }
    if !b.try_push(CRLF) {
        return None;
    }
    if !b.try_push(CRLF) {
        return None;
    }
    if !b.try_end_capturing_with(PREFACE_BODY) {
        return None;
    }
    if !b.try_push(CRLF) {
        return None;
    }
    if !b.try_push(CRLF) {
        return None;
    }
    if !b.try_done() {
        return None;
    }
    Some(b.finish())
}

/// Matches the HTTP/2 connection preface in a connection that starts out as
/// HTTP/1.1.
pub struct H2Dfa {
    /// The state a message is parsed from.
    pub s_init: u16,
    /// The state unmatched input leads back to.
    pub s_any: u16,
    dfa: Dfa,
}

impl H2Dfa {
    /// The DFA is well formed, its reserved states are the recorded ones,
    /// and its transitions and actions involve nothing but its states.
    pub closed spec fn wf(&self) -> bool {
        &&& self.dfa.wf()
        &&& only_states(self.dfa@)
        &&& self.dfa@.init == StateId(self.s_init)
        &&& self.dfa@.any == StateId(self.s_any)
    }

    /// What the DFA holds.
    pub closed spec fn dfa_model(&self) -> DfaModel {
        self.dfa@
    }

    /// The state a message is parsed from, as recorded.
    pub closed spec fn init_id(&self) -> u16 {
        self.s_init
    }

    /// The state unmatched input leads back to, as recorded.
    pub closed spec fn any_id(&self) -> u16 {
        self.s_any
    }

    /// Creates a DFA without patterns whose reserved states are `s_init`
    /// and `s_any`.
    pub fn new(s_init: u16, s_any: u16) -> (h: H2Dfa)
        ensures
            h.wf(),
            h.init_id() == s_init,
            h.any_id() == s_any,
            h.dfa_model() == DfaModel::empty(StateId(s_init), StateId(s_any), 0),
            preface_pattern(h.dfa_model()) is Some,
    {
        proof {
            lemma_preface_on_empty(StateId(s_init), StateId(s_any), 0);
        }
        H2Dfa { s_init, s_any, dfa: Dfa::with_reserved(s_init, s_any) }
    }

    /// Adds the preface pattern: from the initial state, capture
    /// `PRI * HTTP/2.0\r\n\r\n`, end the capture with `SM`, then match
    /// `\r\n\r\n` and terminate. Fails, leaving the DFA as it was, where the
    /// pattern conflicts with the DFA.
    pub fn match_preface(&mut self) -> (r: Result<(), PatternConflict>)
        requires
            old(self).wf(),
        ensures
            final(self).wf(),
            final(self).init_id() == old(self).init_id(),
            final(self).any_id() == old(self).any_id(),
            r is Ok <==> preface_pattern(old(self).dfa_model()) is Some,
            r is Ok ==> final(self).dfa_model() == preface_pattern(old(self).dfa_model())->0,
            r is Err ==> final(self).dfa_model() == old(self).dfa_model(),
    {
        let dfa = self.dfa.duplicate();
        match compile_preface(dfa) {
            Some(d) => {
                proof {
                    lemma_preface_keeps_states(self.dfa@);
                }
                self.dfa = d;
                Ok(())
            },
            None => Err(PatternConflict),
        }
    }

    /// Every transition of the DFA leads from one of its states to one of
    /// its states, and only its states carry actions.
    pub proof fn lemma_transitions_end_in_states(&self)
        requires
            self.wf(),
        ensures
            forall|k: (StateId, char)| #[trigger]
                self.dfa_model().edges.contains_key(k) ==> self.dfa_model().has_state(k.0)
                    && self.dfa_model().has_state(self.dfa_model().edges[k]),
            forall|s: StateId| #[trigger]
                self.dfa_model().actions.contains_key(s) ==> self.dfa_model().has_state(s),
    {
    }

    /// Returns the states of the DFA, each once.
    pub fn iter_states(&self) -> (states: Vec<StateId>)
        requires
            self.wf(),
        ensures
            forall|s: StateId| states@.contains(s) <==> self.dfa_model().has_state(s),
            forall|i: int, j: int|
                0 <= i < states@.len() && 0 <= j < states@.len() && i != j ==> states@[i] != states@[j],
            states@.contains(StateId(self.init_id())),
            states@.contains(StateId(self.any_id())),
    {
        self.dfa.iter_states()
    }

    /// Returns the transitions of the DFA, each as (source, target, input,
    /// action of the target).
    pub fn iter_transitions(&self) -> (t: Vec<(StateId, StateId, char, Option<Action>)>)
        requires
            self.wf(),
        ensures
            self.dfa_model().lists_transitions(t@),
    {
        self.dfa.iter_transitions()
    }
}

/// The action codes of the BPF parser program, as its read-only data
/// defines them.
#[derive(Clone, Copy, Debug, PartialEq, Eq, Structural)]
pub struct ActionCodes {
    /// The flag of an action that starts a capture.
    pub start_capture: u16,
    /// The flag of an action that ends a capture.
    pub end_capture: u16,
    /// The flag of an action that terminates parsing.
    pub done: u16,
    /// The bits of an action that hold its ids.
    pub id_mask: u16,
}

/// The ids an action that ends a capture carries: the capture id above the
/// lower six bits, the match id in them.
pub open spec fn end_capture_ids(cid: u16, mid: u16) -> u16 {
    (cid << 6u16) | mid
}

/// The code of `action` (of no action if `None`).
pub open spec fn action_code(action: Option<Action>, codes: ActionCodes) -> u16 {
    match action {
        None => 0,
        Some(Action::StartCapture(cid)) => codes.start_capture | (cid.0 & codes.id_mask),
        Some(Action::EndCapture(cid, mid)) => codes.end_capture | (end_capture_ids(cid.0, mid.0)
            & codes.id_mask),
        Some(Action::Done) => codes.done,
        Some(Action::StartCaptureAndDone(cid)) => codes.start_capture | codes.done | (cid.0
            & codes.id_mask),
        Some(Action::EndCaptureAndDone(cid, mid)) => codes.end_capture | codes.done | (
        end_capture_ids(cid.0, mid.0) & codes.id_mask),
    }
}

/// Where the id mask is a block of low bits that the capture flags do not
/// touch, the id bits of a capture's code give back its ids: the capture id
/// of a start, and the capture id (above six bits) and the match id (in
/// them) of an end.
pub proof fn lemma_action_code_decodes(cid: u16, mid: u16, codes: ActionCodes)
    requires
        (codes.id_mask as u32) & (((codes.id_mask as u32) + 1) as u32) == 0,
        codes.start_capture & codes.id_mask == 0,
        codes.end_capture & codes.id_mask == 0,
        cid <= codes.id_mask,
        cid < 1024,
        mid < 64,
        end_capture_ids(cid, mid) <= codes.id_mask,
    ensures
        action_code(Some(Action::StartCapture(CaptureId(cid))), codes) & codes.id_mask == cid,
        action_code(Some(Action::StartCapture(CaptureId(cid))), codes) & !codes.id_mask == codes.start_capture,
        (action_code(Some(Action::EndCapture(CaptureId(cid), MatchId(mid))), codes) & codes.id_mask)
            & 63u16 == mid,
        (action_code(Some(Action::EndCapture(CaptureId(cid), MatchId(mid))), codes) & codes.id_mask)
            >> 6u16 == cid,
        action_code(Some(Action::EndCapture(CaptureId(cid), MatchId(mid))), codes) & !codes.id_mask
            == codes.end_capture,
{
    let m = codes.id_mask;
    let f = codes.start_capture;
    let g = codes.end_capture;
    let c = cid;
    let t = mid;
    assert((f | (c & m)) & m == c) by (bit_vector)
        requires
            (m as u32) & (((m as u32) + 1) as u32) == 0,
            f & m == 0,
            c <= m,
    ;
    assert((f | (c & m)) & !m == f) by (bit_vector)
        requires
            f & m == 0,
    ;
    assert(((g | (((c << 6u16) | t) & m)) & m) & 63u16 == t) by (bit_vector)
        requires
            (m as u32) & (((m as u32) + 1) as u32) == 0,
            g & m == 0,
            ((c << 6u16) | t) <= m,
            t < 64,
            c < 1024,
    ;
    assert(((g | (((c << 6u16) | t) & m)) & m) >> 6u16 == c) by (bit_vector)
        requires
            (m as u32) & (((m as u32) + 1) as u32) == 0,
            g & m == 0,
            ((c << 6u16) | t) <= m,
            t < 64,
            c < 1024,
    ;
    assert((g | (((c << 6u16) | t) & m)) & !m == g) by (bit_vector)
        requires
            g & m == 0,
    ;
}

/// A table entry: the action code in the upper half, the state in the lower.
pub open spec fn table_entry(state: u16, code: u16) -> u32 {
    ((code as u32) << 16u32) | (state as u32)
}

/// Packs the target `state` of a transition with the code of `action`.
pub fn state_action_to_raw(state: u16, action: Option<Action>, codes: &ActionCodes) -> (raw: u32)
    ensures
        raw == table_entry(state, action_code(action, *codes)),
{
    let code: u16 = match action {
        None => 0,
        Some(Action::StartCapture(cid)) => codes.start_capture | (cid.0 & codes.id_mask),
        Some(Action::EndCapture(cid, mid)) => {
            let ids: u16 = (cid.0 << 6u16) | mid.0;
            codes.end_capture | (ids & codes.id_mask)
        },
        Some(Action::Done) => codes.done,
        Some(Action::StartCaptureAndDone(cid)) => codes.start_capture | codes.done | (cid.0
            & codes.id_mask),
        Some(Action::EndCaptureAndDone(cid, mid)) => {
            let ids: u16 = (cid.0 << 6u16) | mid.0;
            codes.end_capture | codes.done | (ids & codes.id_mask)
        },
    };
    ((code as u32) << 16u32) | (state as u32)
}

/// A table entry gives back the state and the action code it packs.
pub proof fn lemma_table_entry_unpacks(state: u16, code: u16)
    ensures
        table_entry(state, code) & 0xffffu32 == state as u32,
        table_entry(state, code) >> 16u32 == code as u32,
{
    assert(((((code as u32) << 16u32) | (state as u32)) & 0xffffu32) == state as u32) by (bit_vector);
    assert(((((code as u32) << 16u32) | (state as u32)) >> 16u32) == code as u32) by (bit_vector);
}

/// The column of the table for input `c`.
pub open spec fn input_index(c: char) -> int {
    (c as u32) as int
}

/// Distinct inputs have distinct columns.
proof fn lemma_input_index_injective(a: char, b: char)
    requires
        a != b,
    ensures
        input_index(a) != input_index(b),
{
}

/// Whether `table` has an entry for every transition of `d`.
pub open spec fn table_fits(d: DfaModel, table: Seq<Vec<u32>>) -> bool {
    forall|k: (StateId, char)| #[trigger]
        d.edges.contains_key(k) ==> k.0.0 < table.len() && input_index(k.1) < table[k.0.0 as int]@.len()
}

/// Whether some transition of `d` leaves state `s` on the input numbered `i`.
pub open spec fn has_transition_at(d: DfaModel, s: int, i: int) -> bool {
    0 <= s <= u16::MAX && exists|c: char| #[trigger] d.edges.contains_key((StateId(s as u16), c)) && input_index(c) == i
}

/// Whether `t` is `t0` with the transitions of `d` written into it: each at
/// the row of its source state and the column of its input, as the target
/// state packed with the code of its action; every other entry as it was.
pub open spec fn injected(d: DfaModel, codes: ActionCodes, t0: Seq<Vec<u32>>, t: Seq<Vec<u32>>) -> bool {
    &&& t.len() == t0.len()
    &&& forall|s: int| 0 <= s < t.len() ==> #[trigger] t[s]@.len() == t0[s]@.len()
    &&& forall|k: (StateId, char)| #[trigger]
        d.edges.contains_key(k) ==> t[k.0.0 as int]@[input_index(k.1)] == table_entry(
            d.edges[k].0,
            action_code(d.action_of(d.edges[k]), codes),
        )
    &&& forall|s: int, i: int|
        0 <= s < t0.len() && 0 <= i < t0[s]@.len() && !has_transition_at(d, s, i)
            ==> #[trigger] t[s]@[i] == t0[s]@[i]
}

/// Writes the transitions of the preface DFA into `table`, as
/// [`inject_transitions`] does.
pub fn inject_dfa(dfa: &H2Dfa, codes: &ActionCodes, table: &mut Vec<Vec<u32>>)
    requires
        dfa.wf(),
        table_fits(dfa.dfa_model(), old(table)@),
    ensures
        injected(dfa.dfa_model(), *codes, old(table)@, final(table)@),
{
    inject_transitions(&dfa.dfa, codes, table)
}

/// Writes the transitions of `dfa` into `table`, indexed by source state and
/// input: each entry packs the target state with the code of its action.
pub fn inject_transitions(dfa: &Dfa, codes: &ActionCodes, table: &mut Vec<Vec<u32>>)
    requires
        dfa.wf(),
        table_fits(dfa@, old(table)@),
    ensures
        injected(dfa@, *codes, old(table)@, final(table)@),
{
    let t = dfa.iter_transitions();
    let ghost d = dfa@;
    let ghost t0 = old(table)@;
    let mut k: usize = 0;
    while k < t.len()
        invariant
            d.lists_transitions(t@),
            table_fits(d, t0),
            k <= t@.len(),
            table@.len() == t0.len(),
            forall|s: int| 0 <= s < table@.len() ==> #[trigger] table@[s]@.len() == t0[s]@.len(),
            forall|j: int|
                0 <= j < k ==> #[trigger] table@[t@[j].0.0 as int]@[input_index(t@[j].2)] == table_entry(
                    t@[j].1.0,
                    action_code(t@[j].3, *codes),
                ),
            forall|s: int, i: int|
                0 <= s < t0.len() && 0 <= i < t0[s]@.len() && (forall|j: int|
                    0 <= j < k ==> !(t@[j].0.0 == s && input_index(t@[j].2) == i)) ==> #[trigger] table@[s]@[i]
                    == t0[s]@[i],
        decreases t@.len() - k,
    {
        let (from, to, input, action) = t[k];
        assert(d.edges.contains_key((t@[k as int].0, t@[k as int].2)));
        let raw = state_action_to_raw(to.0, action, codes);
        let s = from.0 as usize;
        let code_point = input as u32;
        assert(code_point == input as u32);
        let i = code_point as usize;
        let ghost before = table@;
        assert(i as int == input_index(input));
        assert(s < table@.len());
        assert(table@[s as int]@.len() == t0[s as int]@.len());
        assert(i < t0[s as int]@.len());
        let mut row = table.remove(s);
        let ghost old_row = row@;
        row.set(i, raw);
        let ghost new_row = row@;
        table.insert(s, row);
        proof {
            assert(old_row == before[s as int]@);
            assert(new_row == old_row.update(i as int, raw));
            assert(table@ =~= before.update(s as int, row));
            assert(table@[s as int]@ == new_row);
            assert(t@[k as int].0.0 == s);
            assert(input_index(t@[k as int].2) == i);
            assert forall|j: int| 0 <= j < k + 1 implies #[trigger] table@[t@[j].0.0 as int]@[input_index(t@[j].2)]
                == table_entry(t@[j].1.0, action_code(t@[j].3, *codes)) by {
                if j < k {
                    assert(d.edges.contains_key((t@[j].0, t@[j].2)));
                    assert(before[t@[j].0.0 as int]@[input_index(t@[j].2)] == table_entry(
                        t@[j].1.0,
                        action_code(t@[j].3, *codes),
                    ));
                    assert((t@[j].0, t@[j].2) != (t@[k as int].0, t@[k as int].2));
                    if t@[j].0.0 == from.0 {
                        assert(t@[j].0 == from);
                        assert(t@[j].2 != input);
                        lemma_input_index_injective(t@[j].2, input);
                        assert(table@[s as int]@[input_index(t@[j].2)] == old_row[input_index(t@[j].2)]);
                    } else {
                        assert(table@[t@[j].0.0 as int] == before[t@[j].0.0 as int]);
                    }
                } else {
                    assert(j == k);
                    assert(raw == table_entry(t@[j].1.0, action_code(t@[j].3, *codes)));
                    assert(table@[s as int]@[i as int] == raw);
                }
            }
        }
        k = k + 1;
    }
    proof {
        assert forall|key: (StateId, char)| #[trigger] d.edges.contains_key(key) implies table@[key.0.0 as int]@[input_index(key.1)]
            == table_entry(d.edges[key].0, action_code(d.action_of(d.edges[key]), *codes)) by {
            let j = choose|j: int| 0 <= j < t@.len() && (t@[j].0, t@[j].2) == key;
            assert(table@[t@[j].0.0 as int]@[input_index(t@[j].2)] == table_entry(
                t@[j].1.0,
                action_code(t@[j].3, *codes),
            ));
        }
        assert forall|s: int, i: int|
            0 <= s < t0.len() && 0 <= i < t0[s]@.len() && !has_transition_at(d, s, i)
                implies #[trigger] table@[s]@[i] == t0[s]@[i] by {
            assert forall|j: int| 0 <= j < t@.len() implies !(t@[j].0.0 == s && input_index(t@[j].2) == i) by {
                if t@[j].0.0 == s && input_index(t@[j].2) == i {
                    assert(d.edges.contains_key((t@[j].0, t@[j].2)));
                    assert(t@[j].0 == StateId(s as u16));
                    assert(d.edges.contains_key((StateId(s as u16), t@[j].2)));
                }
            }
        }
    }
}

} // verus!
