//! The HTTP/1.1 parser configuration: which patterns its DFA holds, and
//! which functions of the target program the parser replaces.
use vstd::prelude::*;
use super::{Action, StateId};
use super::dfa::{BuilderModel, Dfa, DfaBuilder, DfaModel, RangeBound, run};
use super::laws::{
    at_leaf, is_leaf, keeps_transitions, lemma_push_from_leaf, lemma_push_keeps_leaf,
    lemma_push_matches_ignoring_case, lemma_run_concat, lemma_run_keeps, only_states, builder_ok,
    lemma_builder_keeps_states, lemma_end_capturing_and_restart_matches,
};
use crate::h2::parser::opt_string;
use crate::fastpath::str_eq;
use crate::header::{METHOD, PATH, STATUS};
use crate::preface::{
    ActionCodes, CRLF, inject_transitions, injected,
    compile_preface, lemma_preface_keeps_states, lemma_preface_on_leaf, preface_pattern, table_fits,
};

verus! {

/// What the header-end pattern makes of `d`: from the state unmatched input
/// leads back to, an empty line (`\r\n\r\n`) terminates parsing.
pub open spec fn hdr_end_pattern(d: DfaModel) -> Option<DfaModel> {
    match BuilderModel::start(d, d.any).push(CRLF@) {
        Some(b1) => match b1.push(CRLF@) {
            Some(b2) => match b2.done() {
                Some(b3) => Some(b3.dfa),
                None => None,
            },
            None => None,
        },
        None => None,
    }
}

/// The header-end pattern compiles into any DFA whose state for unmatched
/// input has no transition and carries no action, as long as ids remain;
/// any other such state stays so.
pub proof fn lemma_hdr_end_on_leaf(d: DfaModel, q: StateId)
    requires
        only_states(d),
        is_leaf(d, d.any),
        d.num_states <= 1000,
    ensures
        hdr_end_pattern(d) is Some,
        only_states(hdr_end_pattern(d)->0),
        hdr_end_pattern(d)->0.num_states <= d.num_states + 12,
        hdr_end_pattern(d)->0.num_captures == d.num_captures,
        hdr_end_pattern(d)->0.num_matches == d.num_matches,
        hdr_end_pattern(d)->0.init == d.init,
        hdr_end_pattern(d)->0.any == d.any,
        q != d.any && d.has_state(q) && is_leaf(d, q) ==> is_leaf(hdr_end_pattern(d)->0, q),
{
    reveal_strlit("\r\n");
    let b0 = BuilderModel::start(d, d.any);
    assert(at_leaf(b0));
    lemma_push_from_leaf(b0, CRLF@);
    let b1 = b0.push(CRLF@)->0;
    lemma_push_from_leaf(b1, CRLF@);
    let b2 = b1.push(CRLF@)->0;
    assert(is_leaf(b2.dfa, b2.state));
    if q != d.any && d.has_state(q) && is_leaf(d, q) {
        lemma_push_keeps_leaf(b0, CRLF@, q);
        lemma_push_keeps_leaf(b1, CRLF@, q);
        assert(is_leaf(b2.done()->0.dfa, q));
    }
}

/// Where the state for unmatched input has no transition, the header-end
/// pattern makes an empty line lead from it to a state that terminates
/// parsing.
pub proof fn lemma_hdr_end_matches(d: DfaModel)
    requires
        only_states(d),
        is_leaf(d, d.any),
        d.num_states <= 1000,
    ensures
        ({
            let r = hdr_end_pattern(d)->0;
            run(r.edges, d.any, CRLF@ + CRLF@) matches Some(q) && r.actions.contains_key(q)
                && r.actions[q] == Action::Done
        }),
{
    reveal_strlit("\r\n");
    lemma_hdr_end_on_leaf(d, d.any);
    let b0 = BuilderModel::start(d, d.any);
    lemma_push_from_leaf(b0, CRLF@);
    let b1 = b0.push(CRLF@)->0;
    lemma_push_from_leaf(b1, CRLF@);
    let b2 = b1.push(CRLF@)->0;
    let b3 = b2.done()->0;
    let e = b3.dfa.edges;
    lemma_push_matches_ignoring_case(b0, CRLF@, CRLF@);
    lemma_push_matches_ignoring_case(b1, CRLF@, CRLF@);
    assert(keeps_transitions(b1.dfa.edges, e));
    assert(keeps_transitions(b2.dfa.edges, e));
    lemma_run_keeps(b1.dfa.edges, e, d.any, CRLF@);
    lemma_run_keeps(b2.dfa.edges, e, b1.state, CRLF@);
    lemma_run_concat(e, d.any, CRLF@, CRLF@);
    assert(run(e, d.any, CRLF@ + CRLF@) == Some(b2.state));
}

/// The DFA a new parser starts with.
pub open spec fn initial_dfa() -> DfaModel {
    DfaModel::empty(StateId(0), StateId(1), 2)
}

/// On the DFA a new parser starts with, the preface pattern and the
/// header-end pattern both compile, in either order.
pub proof fn lemma_parser_patterns_compose()
    ensures
        preface_pattern(initial_dfa()) is Some,
        hdr_end_pattern(preface_pattern(initial_dfa())->0) is Some,
        hdr_end_pattern(initial_dfa()) is Some,
        preface_pattern(hdr_end_pattern(initial_dfa())->0) is Some,
{
    let d = initial_dfa();
    assert(only_states(d));
    lemma_preface_on_leaf(d, d.any);
    lemma_hdr_end_on_leaf(preface_pattern(d)->0, d.init);
    lemma_hdr_end_on_leaf(d, d.init);
    lemma_preface_on_leaf(hdr_end_pattern(d)->0, d.any);
}

/// One step of a pattern, as [`DfaBuilder`] takes it.
#[derive(Clone, Copy, Debug)]
pub enum Step<'a> {
    /// Appends the string.
    Push(&'a str),
    /// Makes the string optional before the next input.
    Optional(&'a str),
    /// Starts capturing with the next input.
    StartCapturing,
    /// Ends the capture at the state the first character of the string
    /// leads to, and appends the rest.
    EndCapturingWith(&'a str),
    /// Ends the capture as [`Step::EndCapturingWith`] does, the string
    /// leading where it leads from the state for unmatched input.
    EndCapturingAndRestartWith(&'a str),
}

/// What a [`Step`] stands for.
pub enum StepModel {
    Push(Seq<char>),
    Optional(Seq<char>),
    StartCapturing,
    EndCapturingWith(Seq<char>),
    EndCapturingAndRestartWith(Seq<char>),
}

impl<'a> View for Step<'a> {
    type V = StepModel;

    open spec fn view(&self) -> StepModel {
        match *self {
            Step::Push(s) => StepModel::Push(s@),
            Step::Optional(s) => StepModel::Optional(s@),
            Step::StartCapturing => StepModel::StartCapturing,
            Step::EndCapturingWith(s) => StepModel::EndCapturingWith(s@),
            Step::EndCapturingAndRestartWith(s) => StepModel::EndCapturingAndRestartWith(s@),
        }
    }
}

/// What one step makes of the builder `b`; `None` where it fails.
pub open spec fn apply_step(b: BuilderModel, step: StepModel) -> Option<BuilderModel> {
    match step {
        StepModel::Push(s) => b.push(s),
        StepModel::Optional(s) => Some(b.push_optional(s)),
        StepModel::StartCapturing => b.start_capturing(),
        StepModel::EndCapturingWith(s) => b.end_capturing_with(s),
        StepModel::EndCapturingAndRestartWith(s) => b.end_capturing_and_restart_with(s),
    }
}

/// What the steps make of the builder `b`, in order; `None` where one
/// fails.
pub open spec fn apply_steps(b: BuilderModel, steps: Seq<StepModel>) -> Option<BuilderModel>
    decreases steps.len(),
{
    if steps.len() == 0 {
        Some(b)
    } else {
        match apply_steps(b, steps.drop_last()) {
            None => None,
            Some(b2) => apply_step(b2, steps.last()),
        }
    }
}

proof fn lemma_apply_steps_prefix(b: BuilderModel, steps: Seq<StepModel>, k: int, n: int)
    requires
        0 <= k <= n <= steps.len(),
        apply_steps(b, steps.take(n)) is Some,
    ensures
        apply_steps(b, steps.take(k)) is Some,
    decreases n - k,
{
    if k < n {
        assert(steps.take(k + 1).drop_last() =~= steps.take(k));
        lemma_apply_steps_prefix(b, steps, k + 1, n);
    }
}

/// Steps keep the transitions and actions of the DFA within its states.
proof fn lemma_apply_steps_ok(b: BuilderModel, steps: Seq<StepModel>)
    requires
        builder_ok(b),
        apply_steps(b, steps) is Some,
    ensures
        builder_ok(apply_steps(b, steps)->0),
    decreases steps.len(),
{
    if steps.len() > 0 {
        lemma_apply_steps_ok(b, steps.drop_last());
        let b2 = apply_steps(b, steps.drop_last())->0;
        let u = RangeBound::Unbounded;
        match steps.last() {
            StepModel::Push(s) => lemma_builder_keeps_states(b2, s, u, u),
            StepModel::Optional(s) => lemma_builder_keeps_states(b2, s, u, u),
            StepModel::StartCapturing => lemma_builder_keeps_states(b2, Seq::empty(), u, u),
            StepModel::EndCapturingWith(s) => lemma_builder_keeps_states(b2, s, u, u),
            StepModel::EndCapturingAndRestartWith(s) => lemma_builder_keeps_states(b2, s, u, u),
        }
    }
}

/// The header-end pattern keeps the transitions and actions of a DFA within
/// its states.
proof fn lemma_hdr_end_keeps_states(d: DfaModel)
    requires
        only_states(d),
        hdr_end_pattern(d) is Some,
    ensures
        only_states(hdr_end_pattern(d)->0),
{
    let u = RangeBound::Unbounded;
    let b0 = BuilderModel::start(d, d.any);
    lemma_builder_keeps_states(b0, CRLF@, u, u);
    let b1 = b0.push(CRLF@)->0;
    lemma_builder_keeps_states(b1, CRLF@, u, u);
    let b2 = b1.push(CRLF@)->0;
    lemma_builder_keeps_states(b2, CRLF@, u, u);
}

/// Takes the steps in order; `false` where one fails.
fn apply_steps_to(b: &mut DfaBuilder, steps: &Vec<Step>) -> (ok: bool)
    requires
        old(b).wf(),
    ensures
        final(b).wf(),
        ok <==> apply_steps(old(b)@, steps@.map_values(|s: Step| s@)) is Some,
        ok ==> final(b)@ == apply_steps(old(b)@, steps@.map_values(|s: Step| s@))->0,
{
    let ghost m = steps@.map_values(|s: Step| s@);
    let ghost b0 = b@;
    let mut i: usize = 0;
    while i < steps.len()
        invariant
            i <= steps@.len(),
            m == steps@.map_values(|s: Step| s@),
            b.wf(),
            b0 == old(b)@,
            apply_steps(b0, m.take(i as int)) == Some(b@),
        decreases steps@.len() - i,
    {
        let ghost before = b@;
        let ok = match steps[i] {
            Step::Push(s) => b.try_push(s),
            Step::Optional(s) => {
                b.push_optional(s);
                true
            },
            Step::StartCapturing => b.try_start_capturing(),
            Step::EndCapturingWith(s) => b.try_end_capturing_with(s),
            Step::EndCapturingAndRestartWith(s) => b.try_end_capturing_and_restart_with(s),
        };
        proof {
            assert(m.take(i + 1).drop_last() =~= m.take(i as int));
            assert(m.take(i + 1).last() == steps@[i as int]@);
        }
        if !ok {
            proof {
                if apply_steps(b0, m.take(m.len() as int)) is Some {
                    lemma_apply_steps_prefix(b0, m, i + 1, m.len() as int);
                }
                assert(m.take(m.len() as int) =~= m);
            }
            return false;
        }
        i = i + 1;
    }
    assert(m.take(m.len() as int) =~= m);
    true
}

/// The steps that capture the value of the header field `name`, from the
/// state for unmatched input: an empty line, the name, optional white
/// space, a colon, optional white space, then the value up to the end of
/// the line.
pub open spec fn header_steps(name: Seq<char>) -> Seq<StepModel> {
    seq![
        StepModel::Push(CRLF@),
        StepModel::Push(name),
        StepModel::Optional("\t"@),
        StepModel::Optional(" "@),
        StepModel::Push(":"@),
        StepModel::Optional("\t"@),
        StepModel::Optional(" "@),
        StepModel::StartCapturing,
        StepModel::Optional("*"@),
        StepModel::EndCapturingAndRestartWith(CRLF@),
    ]
}

/// The steps that capture the method of a request, from the state a
/// message is parsed from: the request line up to its first space.
pub open spec fn method_steps() -> Seq<StepModel> {
    seq![
        StepModel::StartCapturing,
        StepModel::Optional("*"@),
        StepModel::EndCapturingWith(" "@),
        StepModel::Optional("*"@),
        StepModel::Push(" HTTP/1.1"@),
    ]
}

/// The steps that capture the target of a request, from the state a
/// message is parsed from: what follows the first space of the request
/// line, up to the end of the line.
pub open spec fn path_steps() -> Seq<StepModel> {
    seq![
        StepModel::Optional("*"@),
        StepModel::Push(" "@),
        StepModel::StartCapturing,
        StepModel::Optional("*"@),
        StepModel::Push(" HTTP/1.1"@),
        StepModel::EndCapturingAndRestartWith(CRLF@),
    ]
}

/// The steps that capture the status code of a response, from the state
/// a message is parsed from: what follows `HTTP/1.1 ` on the status line,
/// up to its end.
pub open spec fn status_steps() -> Seq<StepModel> {
    seq![
        StepModel::Push("HTTP/1.1 "@),
        StepModel::StartCapturing,
        StepModel::Optional("*"@),
        StepModel::EndCapturingAndRestartWith(CRLF@),
    ]
}

/// What capturing the header field `name` makes of `d`.
pub open spec fn hdr_capture_pattern(d: DfaModel, name: Seq<char>) -> Option<DfaModel> {
    match apply_steps(BuilderModel::start(d, d.any), header_steps(name)) {
        Some(b) => Some(b.dfa),
        None => None,
    }
}

/// What the steps make of `d`, from the state a message is parsed from.
pub open spec fn status_line_pattern(d: DfaModel, steps: Seq<StepModel>) -> Option<DfaModel> {
    match apply_steps(BuilderModel::start(d, d.init), steps) {
        Some(b) => Some(b.dfa),
        None => None,
    }
}

/// What capturing `name` makes of `d`: the method, the request target or
/// the status code for their names, the header field of that name
/// otherwise.
pub open spec fn capture_pattern(d: DfaModel, name: Seq<char>) -> Option<DfaModel> {
    if name == METHOD@ {
        status_line_pattern(d, method_steps())
    } else if name == PATH@ {
        status_line_pattern(d, path_steps())
    } else if name == STATUS@ {
        status_line_pattern(d, status_steps())
    } else {
        hdr_capture_pattern(d, name)
    }
}

proof fn lemma_apply_steps_push(b: BuilderModel, steps: Seq<StepModel>, st: StepModel)
    ensures
        apply_steps(b, steps.push(st)) == (match apply_steps(b, steps) {
            None => None,
            Some(b2) => apply_step(b2, st),
        }),
{
    assert(steps.push(st).drop_last() =~= steps);
}

/// The request-target steps, one after the other.
spec fn path_chain(d: DfaModel) -> Option<BuilderModel> {
    match BuilderModel::start(d, d.init).push_optional("*"@).push(" "@) {
        None => None,
        Some(b2) => match b2.start_capturing() {
            None => None,
            Some(b3) => match b3.push_optional("*"@).push(" HTTP/1.1"@) {
                None => None,
                Some(b5) => b5.end_capturing_and_restart_with(CRLF@),
            },
        },
    }
}

proof fn lemma_path_chain(d: DfaModel)
    ensures
        apply_steps(BuilderModel::start(d, d.init), path_steps()) == path_chain(d),
{
    let st1 = StepModel::Optional("*"@);
    let st2 = StepModel::Push(" "@);
    let st3 = StepModel::StartCapturing;
    let st4 = StepModel::Optional("*"@);
    let st5 = StepModel::Push(" HTTP/1.1"@);
    let st6 = StepModel::EndCapturingAndRestartWith(CRLF@);
    let s0 = Seq::<StepModel>::empty();
    let s1 = s0.push(st1);
    let s2 = s1.push(st2);
    let s3 = s2.push(st3);
    let s4 = s3.push(st4);
    let s5 = s4.push(st5);
    let s6 = s5.push(st6);
    assert(path_steps() =~= s6);
    let b0 = BuilderModel::start(d, d.init);
    lemma_apply_steps_push(b0, s0, st1);
    lemma_apply_steps_push(b0, s1, st2);
    lemma_apply_steps_push(b0, s2, st3);
    lemma_apply_steps_push(b0, s3, st4);
    lemma_apply_steps_push(b0, s4, st5);
    lemma_apply_steps_push(b0, s5, st6);
}

/// Capturing the request target ends the request line where an empty line
/// leads from the state for unmatched input: after `capture_hdr(PATH)`, a
/// request line of an empty method and target (`  HTTP/1.1\r\n`) leads from
/// the state messages are parsed from to the state `\r\n` already led to
/// from the state for unmatched input, so the header lines that follow are
/// matched as any other.
pub proof fn lemma_request_target_restarts(d: DfaModel, q: StateId)
    requires
        only_states(d),
        capture_pattern(d, PATH@) is Some,
        run(d.edges, d.any, CRLF@) == Some(q),
    ensures
        run(capture_pattern(d, PATH@)->0.edges, d.init, " "@ + " HTTP/1.1"@ + CRLF@) == Some(q),
{
    assert(PATH@ != METHOD@) by {
        reveal_strlit("path");
        reveal_strlit("method");
        assert(PATH@.len() != METHOD@.len());
    }
    lemma_path_chain(d);
    let b1 = BuilderModel::start(d, d.init).push_optional("*"@);
    let b2 = b1.push(" "@)->0;
    let b3 = b2.start_capturing()->0;
    let b4 = b3.push_optional("*"@);
    let b5 = b4.push(" HTTP/1.1"@)->0;
    let b6 = b5.end_capturing_and_restart_with(CRLF@)->0;
    assert(capture_pattern(d, PATH@)->0 == b6.dfa);
    let e = b6.dfa.edges;
    lemma_push_matches_ignoring_case(b1, " "@, " "@);
    lemma_push_matches_ignoring_case(b4, " HTTP/1.1"@, " HTTP/1.1"@);
    lemma_end_capturing_and_restart_matches(b5, CRLF@);
    assert(b4.dfa.edges == b2.dfa.edges);
    let u = RangeBound::Unbounded;
    lemma_builder_keeps_states(b1, " "@, u, u);
    lemma_builder_keeps_states(b2, " "@, u, u);
    lemma_builder_keeps_states(b4, " HTTP/1.1"@, u, u);
    assert(b5.dfa.any == d.any);
    assert(keeps_transitions(d.edges, b5.dfa.edges));
    lemma_run_keeps(d.edges, b5.dfa.edges, d.any, CRLF@);
    assert(b6.state == q);
    assert(keeps_transitions(b2.dfa.edges, e));
    lemma_run_keeps(b2.dfa.edges, e, d.init, " "@);
    lemma_run_keeps(b5.dfa.edges, e, b2.state, " HTTP/1.1"@);
    lemma_run_concat(e, d.init, " "@, " HTTP/1.1"@);
    lemma_run_concat(e, d.init, " "@ + " HTTP/1.1"@, CRLF@);
}

/// The status-code steps, one after the other.
spec fn status_chain(d: DfaModel) -> Option<BuilderModel> {
    match BuilderModel::start(d, d.init).push("HTTP/1.1 "@) {
        None => None,
        Some(b1) => match b1.start_capturing() {
            None => None,
            Some(b2) => b2.push_optional("*"@).end_capturing_and_restart_with(CRLF@),
        },
    }
}

proof fn lemma_status_chain(d: DfaModel)
    ensures
        apply_steps(BuilderModel::start(d, d.init), status_steps()) == status_chain(d),
{
    let st1 = StepModel::Push("HTTP/1.1 "@);
    let st2 = StepModel::StartCapturing;
    let st3 = StepModel::Optional("*"@);
    let st4 = StepModel::EndCapturingAndRestartWith(CRLF@);
    let s0 = Seq::<StepModel>::empty();
    let s1 = s0.push(st1);
    let s2 = s1.push(st2);
    let s3 = s2.push(st3);
    let s4 = s3.push(st4);
    assert(status_steps() =~= s4);
    let b0 = BuilderModel::start(d, d.init);
    lemma_apply_steps_push(b0, s0, st1);
    lemma_apply_steps_push(b0, s1, st2);
    lemma_apply_steps_push(b0, s2, st3);
    lemma_apply_steps_push(b0, s3, st4);
}

/// Capturing the status code ends the status line where an empty line
/// leads from the state for unmatched input: after `capture_hdr(STATUS)`,
/// `HTTP/1.1 \r\n` leads from the state messages are parsed from to the
/// state `\r\n` already led to from the state for unmatched input.
pub proof fn lemma_status_line_restarts(d: DfaModel, q: StateId)
    requires
        only_states(d),
        capture_pattern(d, STATUS@) is Some,
        run(d.edges, d.any, CRLF@) == Some(q),
    ensures
        run(capture_pattern(d, STATUS@)->0.edges, d.init, "HTTP/1.1 "@ + CRLF@) == Some(q),
{
    assert(STATUS@ != METHOD@ && STATUS@ != PATH@) by {
        reveal_strlit("path");
        reveal_strlit("method");
        reveal_strlit("status");
        assert(STATUS@[0] != METHOD@[0]);
        assert(STATUS@.len() != PATH@.len());
    }
    lemma_status_chain(d);
    let b0 = BuilderModel::start(d, d.init);
    let b1 = b0.push("HTTP/1.1 "@)->0;
    let b2 = b1.start_capturing()->0;
    let b3 = b2.push_optional("*"@);
    let b4 = b3.end_capturing_and_restart_with(CRLF@)->0;
    assert(capture_pattern(d, STATUS@)->0 == b4.dfa);
    let e = b4.dfa.edges;
    lemma_push_matches_ignoring_case(b0, "HTTP/1.1 "@, "HTTP/1.1 "@);
    lemma_end_capturing_and_restart_matches(b3, CRLF@);
    let u = RangeBound::Unbounded;
    lemma_builder_keeps_states(b0, "HTTP/1.1 "@, u, u);
    assert(b3.dfa.any == d.any);
    lemma_run_keeps(d.edges, b3.dfa.edges, d.any, CRLF@);
    assert(b4.state == q);
    lemma_run_keeps(b1.dfa.edges, e, d.init, "HTTP/1.1 "@);
    lemma_run_concat(e, d.init, "HTTP/1.1 "@, CRLF@);
}

/// The header steps, one after the other.
spec fn header_chain(d: DfaModel, name: Seq<char>) -> Option<BuilderModel> {
    match BuilderModel::start(d, d.any).push(CRLF@) {
        None => None,
        Some(b1) => match b1.push(name) {
            None => None,
            Some(b2) => match b2.push_optional("\t"@).push_optional(" "@).push(":"@) {
                None => None,
                Some(b5) => match b5.push_optional("\t"@).push_optional(" "@).start_capturing() {
                    None => None,
                    Some(b8) => b8.push_optional("*"@).end_capturing_and_restart_with(CRLF@),
                },
            },
        },
    }
}

proof fn lemma_header_chain(d: DfaModel, name: Seq<char>)
    ensures
        apply_steps(BuilderModel::start(d, d.any), header_steps(name)) == header_chain(d, name),
{
    let t0 = StepModel::Push(CRLF@);
    let t1 = StepModel::Push(name);
    let t2 = StepModel::Optional("\t"@);
    let t3 = StepModel::Optional(" "@);
    let t4 = StepModel::Push(":"@);
    let t7 = StepModel::StartCapturing;
    let t8 = StepModel::Optional("*"@);
    let t9 = StepModel::EndCapturingAndRestartWith(CRLF@);
    let s0 = Seq::<StepModel>::empty();
    let s1 = s0.push(t0);
    let s2 = s1.push(t1);
    let s3 = s2.push(t2);
    let s4 = s3.push(t3);
    let s5 = s4.push(t4);
    let s6 = s5.push(t2);
    let s7 = s6.push(t3);
    let s8 = s7.push(t7);
    let s9 = s8.push(t8);
    let s10 = s9.push(t9);
    assert(header_steps(name) =~= s10);
    let b0 = BuilderModel::start(d, d.any);
    lemma_apply_steps_push(b0, s0, t0);
    lemma_apply_steps_push(b0, s1, t1);
    lemma_apply_steps_push(b0, s2, t2);
    lemma_apply_steps_push(b0, s3, t3);
    lemma_apply_steps_push(b0, s4, t4);
    lemma_apply_steps_push(b0, s5, t2);
    lemma_apply_steps_push(b0, s6, t3);
    lemma_apply_steps_push(b0, s7, t7);
    lemma_apply_steps_push(b0, s8, t8);
    lemma_apply_steps_push(b0, s9, t9);
}

/// Capturing a header field ends its line where an empty line leads from
/// the state for unmatched input: after the header pattern of `name`, the
/// line `\r\n` `name` `:` `\r\n` (an empty value) leads from the state for
/// unmatched input where `\r\n` alone does, so the next line is matched as
/// any other.
pub proof fn lemma_header_line_restarts(d: DfaModel, name: Seq<char>)
    requires
        only_states(d),
        hdr_capture_pattern(d, name) is Some,
    ensures
        run(hdr_capture_pattern(d, name)->0.edges, d.any, CRLF@ + name + ":"@ + CRLF@) is Some,
        run(hdr_capture_pattern(d, name)->0.edges, d.any, CRLF@ + name + ":"@ + CRLF@) == run(
            hdr_capture_pattern(d, name)->0.edges,
            d.any,
            CRLF@,
        ),
{
    lemma_header_chain(d, name);
    let u = RangeBound::Unbounded;
    let b0 = BuilderModel::start(d, d.any);
    let b1 = b0.push(CRLF@)->0;
    let b2 = b1.push(name)->0;
    let b4 = b2.push_optional("\t"@).push_optional(" "@);
    let b5 = b4.push(":"@)->0;
    let b8 = b5.push_optional("\t"@).push_optional(" "@).start_capturing()->0;
    let b9 = b8.push_optional("*"@);
    let b10 = b9.end_capturing_and_restart_with(CRLF@)->0;
    assert(hdr_capture_pattern(d, name)->0 == b10.dfa);
    let e = b10.dfa.edges;
    lemma_push_matches_ignoring_case(b0, CRLF@, CRLF@);
    lemma_push_matches_ignoring_case(b1, name, name);
    lemma_push_matches_ignoring_case(b4, ":"@, ":"@);
    lemma_builder_keeps_states(b0, CRLF@, u, u);
    lemma_builder_keeps_states(b1, name, u, u);
    lemma_builder_keeps_states(b4, ":"@, u, u);
    assert(b9.dfa.any == d.any);
    assert(keeps_transitions(b1.dfa.edges, b9.dfa.edges));
    lemma_run_keeps(b1.dfa.edges, b9.dfa.edges, d.any, CRLF@);
    lemma_end_capturing_and_restart_matches(b9, CRLF@);
    assert(b10.state == b1.state);
    lemma_run_keeps(b1.dfa.edges, e, d.any, CRLF@);
    lemma_run_keeps(b2.dfa.edges, e, b1.state, name);
    lemma_run_keeps(b5.dfa.edges, e, b2.state, ":"@);
    lemma_run_concat(e, d.any, CRLF@, name);
    lemma_run_concat(e, d.any, CRLF@ + name, ":"@);
    lemma_run_concat(e, d.any, CRLF@ + name + ":"@, CRLF@);
}

/// Why a capture cannot be added.
#[derive(Clone, Copy, Debug, PartialEq, Eq, Structural)]
pub enum CaptureError {
    /// The pattern would redirect a transition, give a state two different
    /// captures, or run out of ids.
    Conflict,
}

/// What a [`Parser`] holds.
pub struct ParserModel {
    /// The state a message is parsed from.
    pub s_init: u16,
    /// The state unmatched input leads back to.
    pub s_any: u16,
    /// The DFA the patterns are compiled into.
    pub dfa: DfaModel,
    pub parse_msg_fn: Option<Seq<char>>,
    pub parse_buf_fn: Option<Seq<char>>,
    pub parse_skb_fn: Option<Seq<char>>,
    pub extract_fn: Option<Seq<char>>,
    pub matched_fn: Option<Seq<char>>,
}

/// The HTTP/1.1 parser of a target program.
pub struct Parser {
    s_init: u16,
    s_any: u16,
    dfa: Dfa,
    parse_msg_fn: Option<String>,
    parse_buf_fn: Option<String>,
    parse_skb_fn: Option<String>,
    extract_fn: Option<String>,
    matched_fn: Option<String>,
}

impl View for Parser {
    type V = ParserModel;

    closed spec fn view(&self) -> ParserModel {
        ParserModel {
            s_init: self.s_init,
            s_any: self.s_any,
            dfa: self.dfa@,
            parse_msg_fn: opt_string(self.parse_msg_fn),
            parse_buf_fn: opt_string(self.parse_buf_fn),
            parse_skb_fn: opt_string(self.parse_skb_fn),
            extract_fn: opt_string(self.extract_fn),
            matched_fn: opt_string(self.matched_fn),
        }
    }
}

impl Parser {
    /// The DFA is well formed, and its transitions and actions involve
    /// nothing but its states.
    pub closed spec fn wf(&self) -> bool {
        self.dfa.wf() && only_states(self.dfa@)
    }

    /// Every transition of the parser's DFA leads from one of its states to
    /// one of its states, and only its states carry actions.
    pub proof fn lemma_transitions_end_in_states(&self)
        requires
            self.wf(),
        ensures
            forall|k: (StateId, char)| #[trigger]
                self@.dfa.edges.contains_key(k) ==> self@.dfa.has_state(k.0) && self@.dfa.has_state(
                    self@.dfa.edges[k],
                ),
            forall|s: StateId| #[trigger] self@.dfa.actions.contains_key(s) ==> self@.dfa.has_state(s),
    {
    }

    /// Creates a new HTTP/1.1 parser, without patterns and without functions
    /// to replace. Messages are parsed from state 0; unmatched input leads
    /// back to state 1.
    pub fn new() -> (p: Parser)
        ensures
            p.wf(),
            p@ == (ParserModel {
                s_init: 0,
                s_any: 1,
                dfa: initial_dfa(),
                parse_msg_fn: None,
                parse_buf_fn: None,
                parse_skb_fn: None,
                extract_fn: None,
                matched_fn: None,
            }),
    {
        Parser {
            s_init: 0,
            s_any: 1,
            dfa: Dfa::new(),
            parse_msg_fn: None,
            parse_buf_fn: None,
            parse_skb_fn: None,
            extract_fn: None,
            matched_fn: None,
        }
    }

    /// Names the function of the target program that the message parser
    /// replaces.
    pub fn replace_parse_msg(self, parse_fn: &str) -> (p: Parser)
        requires
            self.wf(),
        ensures
            p.wf(),
            p@ == (ParserModel { parse_msg_fn: Some(parse_fn@), ..self@ }),
    {
        Parser { parse_msg_fn: Some(parse_fn.to_owned()), ..self }
    }

    /// Names the function of the target program that the socket buffer
    /// parser replaces.
    pub fn replace_parse_skb(self, parse_fn: &str) -> (p: Parser)
        requires
            self.wf(),
        ensures
            p.wf(),
            p@ == (ParserModel { parse_skb_fn: Some(parse_fn@), ..self@ }),
    {
        Parser { parse_skb_fn: Some(parse_fn.to_owned()), ..self }
    }

    /// Names the function of the target program that the buffer parser
    /// replaces.
    pub fn replace_parse_buf(self, parse_fn: &str) -> (p: Parser)
        requires
            self.wf(),
        ensures
            p.wf(),
            p@ == (ParserModel { parse_buf_fn: Some(parse_fn@), ..self@ }),
    {
        Parser { parse_buf_fn: Some(parse_fn.to_owned()), ..self }
    }

    /// Names the function of the target program to be called when a pattern
    /// match is completed.
    pub fn replace_matched(self, matched_fn: &str) -> (p: Parser)
        requires
            self.wf(),
        ensures
            p.wf(),
            p@ == (ParserModel { matched_fn: Some(matched_fn@), ..self@ }),
    {
        Parser { matched_fn: Some(matched_fn.to_owned()), ..self }
    }

    /// Names the function of the target program to be called when
    /// extracting matched content.
    pub fn replace_extract(self, extract_fn: &str) -> (p: Parser)
        requires
            self.wf(),
        ensures
            p.wf(),
            p@ == (ParserModel { extract_fn: Some(extract_fn@), ..self@ }),
    {
        Parser { extract_fn: Some(extract_fn.to_owned()), ..self }
    }

    /// Configures the parser to capture `name`: the method, the request
    /// target or the status code for [`METHOD`], [`PATH`] and [`STATUS`],
    /// the value of the header field of that name otherwise. Fails where the
    /// pattern conflicts with those the parser holds.
    pub fn capture_hdr(self, name: &str) -> (r: Result<Parser, CaptureError>)
        requires
            self.wf(),
        ensures
            r is Ok <==> capture_pattern(self@.dfa, name@) is Some,
            r matches Ok(p) ==> p.wf() && p@ == (ParserModel {
                dfa: capture_pattern(self@.dfa, name@)->0,
                ..self@
            }),
            r matches Err(e) ==> e == CaptureError::Conflict,
    {
        let Parser { s_init, s_any, dfa, parse_msg_fn, parse_buf_fn, parse_skb_fn, extract_fn, matched_fn } =
            self;
        let ghost d = dfa@;
        let (status_line, steps) = if str_eq(name, METHOD) {
            let steps = vec![
                Step::StartCapturing,
                Step::Optional("*"),
                Step::EndCapturingWith(" "),
                Step::Optional("*"),
                Step::Push(" HTTP/1.1"),
            ];
            assert(steps@.map_values(|s: Step| s@) =~= method_steps());
            (true, steps)
        } else if str_eq(name, PATH) {
            let steps = vec![
                Step::Optional("*"),
                Step::Push(" "),
                Step::StartCapturing,
                Step::Optional("*"),
                Step::Push(" HTTP/1.1"),
                Step::EndCapturingAndRestartWith(CRLF),
            ];
            assert(steps@.map_values(|s: Step| s@) =~= path_steps());
            (true, steps)
        } else if str_eq(name, STATUS) {
            let steps = vec![
                Step::Push("HTTP/1.1 "),
                Step::StartCapturing,
                Step::Optional("*"),
                Step::EndCapturingAndRestartWith(CRLF),
            ];
            assert(steps@.map_values(|s: Step| s@) =~= status_steps());
            (true, steps)
        } else {
            let steps = vec![
                Step::Push(CRLF),
                Step::Push(name),
                Step::Optional("\t"),
                Step::Optional(" "),
                Step::Push(":"),
                Step::Optional("\t"),
                Step::Optional(" "),
                Step::StartCapturing,
                Step::Optional("*"),
                Step::EndCapturingAndRestartWith(CRLF),
            ];
            assert(steps@.map_values(|s: Step| s@) =~= header_steps(name@));
            (false, steps)
        };
        let mut b = dfa.start_pattern(status_line);
        let ghost b0 = b@;
        if !apply_steps_to(&mut b, &steps) {
            return Err(CaptureError::Conflict);
        }
        proof {
            lemma_apply_steps_ok(b0, steps@.map_values(|s: Step| s@));
        }
        let dfa = b.finish();
        Ok(Parser { s_init, s_any, dfa, parse_msg_fn, parse_buf_fn, parse_skb_fn, extract_fn, matched_fn })
    }

    /// Configures the parser to match the HTTP/2 connection preface
    /// (`PRI * HTTP/2.0\r\n\r\nSM\r\n\r\n`) from the state messages are
    /// parsed from: a capture starts there and ends with `SM`, and the whole
    /// preface terminates parsing. Fails where the pattern conflicts with
    /// those the parser holds.
    ///
    /// On the DFA a new parser starts with, it succeeds, and the header-end
    /// pattern still compiles afterwards.
    pub fn match_h2_preface(self) -> (r: Result<Parser, CaptureError>)
        requires
            self.wf(),
        ensures
            r is Ok <==> preface_pattern(self@.dfa) is Some,
            r matches Ok(p) ==> p.wf() && p@ == (ParserModel {
                dfa: preface_pattern(self@.dfa)->0,
                ..self@
            }),
            r matches Err(e) ==> e == CaptureError::Conflict,
            self@.dfa == initial_dfa() ==> (r matches Ok(p) && hdr_end_pattern(p@.dfa) is Some),
    {
        assert(self@.dfa == initial_dfa() ==> preface_pattern(self@.dfa) is Some && hdr_end_pattern(
            preface_pattern(self@.dfa)->0,
        ) is Some) by {
            lemma_parser_patterns_compose();
        }
        let Parser { s_init, s_any, dfa, parse_msg_fn, parse_buf_fn, parse_skb_fn, extract_fn, matched_fn } =
            self;
        let ghost d0 = dfa@;
        match compile_preface(dfa) {
            Some(dfa) => {
                proof {
                    lemma_preface_keeps_states(d0);
                }
                Ok(Parser { s_init, s_any, dfa, parse_msg_fn, parse_buf_fn, parse_skb_fn, extract_fn, matched_fn })
            },
            None => Err(CaptureError::Conflict),
        }
    }

    /// Terminates parsing at the end of the header section: an empty line
    /// (`\r\n\r\n`) followed from the state unmatched input leads back to.
    /// Fails where the pattern conflicts with those the parser holds.
    pub fn done_on_hdr_end(self) -> (r: Result<Parser, CaptureError>)
        requires
            self.wf(),
        ensures
            r is Ok <==> hdr_end_pattern(self@.dfa) is Some,
            r matches Ok(p) ==> p.wf() && p@ == (ParserModel {
                dfa: hdr_end_pattern(self@.dfa)->0,
                ..self@
            }),
            r matches Err(e) ==> e == CaptureError::Conflict,
    {
        let Parser { s_init, s_any, dfa, parse_msg_fn, parse_buf_fn, parse_skb_fn, extract_fn, matched_fn } =
            self;
        let ghost d0 = dfa@;
        let mut b = dfa.start_pattern(false);
        if !b.try_push(CRLF) {
            return Err(CaptureError::Conflict);
        }
        if !b.try_push(CRLF) {
            return Err(CaptureError::Conflict);
        }
        if !b.try_done() {
            return Err(CaptureError::Conflict);
        }
        proof {
            lemma_hdr_end_keeps_states(d0);
        }
        let dfa = b.finish();
        Ok(Parser { s_init, s_any, dfa, parse_msg_fn, parse_buf_fn, parse_skb_fn, extract_fn, matched_fn })
    }

    /// Returns the states of the parser's DFA, each once.
    pub fn iter_states(&self) -> (states: Vec<StateId>)
        requires
            self.wf(),
        ensures
            forall|s: StateId| states@.contains(s) <==> self@.dfa.has_state(s),
            forall|i: int, j: int|
                0 <= i < states@.len() && 0 <= j < states@.len() && i != j ==> states@[i] != states@[j],
    {
        self.dfa.iter_states()
    }

    /// Returns the transitions of the parser's DFA, each as (source, target,
    /// input, action of the target).
    pub fn iter_transitions(&self) -> (t: Vec<(StateId, StateId, char, Option<Action>)>)
        requires
            self.wf(),
        ensures
            self@.dfa.lists_transitions(t@),
    {
        self.dfa.iter_transitions()
    }

    /// Writes the transitions of the parser's DFA into the parser program's
    /// table, indexed by source state and input: each entry is the target
    /// state with the code of its action.
    pub fn inject(&self, codes: &ActionCodes, table: &mut Vec<Vec<u32>>)
        requires
            self.wf(),
            table_fits(self@.dfa, old(table)@),
        ensures
            injected(self@.dfa, *codes, old(table)@, final(table)@),
    {
        inject_transitions(&self.dfa, codes, table)
    }
}

} // verus!
