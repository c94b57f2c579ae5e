//! What every compiled HTTP/1.x pattern keeps of the DFA, and what it adds.
use vstd::prelude::*;
use super::{Capture, CaptureId, MatchId, StateId};
use super::dfa::{
    BuilderModel, DfaModel, RangeBound, ascii_lower, ascii_upper, eq_ignore_ascii_case, run,
};

verus! {

/// Every transition of `e1` is one of `e2`, to the same state.
pub open spec fn keeps_transitions(
    e1: Map<(StateId, char), StateId>,
    e2: Map<(StateId, char), StateId>,
) -> bool {
    forall|k: (StateId, char)| #[trigger] e1.contains_key(k) ==> e2.contains_key(k) && e2[k] == e1[k]
}

/// A character equal to `c` but for case is one of the cases of `c`.
proof fn lemma_case_variants(c: char, d: char)
    requires
        eq_ignore_ascii_case(c, d),
    ensures
        d == ascii_lower(c) || d == ascii_upper(c),
{
}

proof fn lemma_push_edge_ci(d: DfaModel, from: StateId, c: char, to: Option<StateId>)
    requires
        d.push_edge_case_insensitive(from, c, to) is Some,
    ensures
        ({
            let (d2, x) = d.push_edge_case_insensitive(from, c, to)->0;
            &&& keeps_transitions(d.edges, d2.edges)
            &&& forall|c2: char|
                eq_ignore_ascii_case(c, c2) ==> #[trigger] d2.edges.contains_key((from, c2))
                    && d2.edges[(from, c2)] == x
        }),
{
    assert forall|c2: char| eq_ignore_ascii_case(c, c2) implies c2 == ascii_lower(c) || c2
        == ascii_upper(c) by {
        lemma_case_variants(c, c2);
    }
}

proof fn lemma_walk_optional(d: DfaModel, start: StateId, o: Seq<char>, n: nat)
    requires
        d.walk_optional(start, o, n) is Some,
    ensures
        keeps_transitions(d.edges, (d.walk_optional(start, o, n)->0).0.edges),
    decreases n,
{
    if n > 0 {
        lemma_walk_optional(d, start, o, (n - 1) as nat);
        let (d1, from) = d.walk_optional(start, o, (n - 1) as nat)->0;
        lemma_push_edge_ci(d1, from, o[n - 1], super::dfa::optional_target(o, n - 1, start));
    }
}

proof fn lemma_insert_optionals(d: DfaModel, start: StateId, p: Seq<Seq<char>>)
    requires
        d.insert_optionals(start, p) is Some,
    ensures
        keeps_transitions(d.edges, d.insert_optionals(start, p)->0.edges),
    decreases p.len(),
{
    if p.len() > 0 {
        lemma_walk_optional(d, start, p.last(), p.last().len());
        let d1 = (d.walk_optional(start, p.last(), p.last().len())->0).0;
        lemma_insert_optionals(d1, start, p.drop_last());
    }
}

proof fn lemma_push_edge(b: BuilderModel, c: char, to: Option<StateId>)
    requires
        b.push_edge(c, to) is Some,
    ensures
        ({
            let b2 = b.push_edge(c, to)->0;
            &&& keeps_transitions(b.dfa.edges, b2.dfa.edges)
            &&& forall|c2: char|
                eq_ignore_ascii_case(c, c2) ==> #[trigger] b2.dfa.edges.contains_key((b.state, c2))
                    && b2.dfa.edges[(b.state, c2)] == b2.state
        }),
{
    lemma_insert_optionals(b.dfa, b.state, b.optional_prefixes);
    let d1 = b.dfa.insert_optionals(b.state, b.optional_prefixes)->0;
    let d2 = match b.start_capture {
        Some(id) => d1.add_action(b.state, super::Action::StartCapture(id))->0,
        None => d1,
    };
    lemma_push_edge_ci(d2, b.state, c, to);
}

/// Following a path does not change when transitions are added.
pub proof fn lemma_run_keeps(
    e1: Map<(StateId, char), StateId>,
    e2: Map<(StateId, char), StateId>,
    from: StateId,
    s: Seq<char>,
)
    requires
        keeps_transitions(e1, e2),
        run(e1, from, s) is Some,
    ensures
        run(e2, from, s) == run(e1, from, s),
    decreases s.len(),
{
    if s.len() > 0 {
        lemma_run_keeps(e1, e2, from, s.drop_last());
    }
}

proof fn lemma_push_prefix(b: BuilderModel, s: Seq<char>, t: Seq<char>, n: nat)
    requires
        n <= s.len(),
        n <= t.len(),
        b.push_prefix(s, n) is Some,
        forall|i: int| 0 <= i < n ==> eq_ignore_ascii_case(#[trigger] s[i], t[i]),
    ensures
        ({
            let b2 = b.push_prefix(s, n)->0;
            &&& keeps_transitions(b.dfa.edges, b2.dfa.edges)
            &&& run(b2.dfa.edges, b.state, t.take(n as int)) == Some(b2.state)
        }),
    decreases n,
{
    if n == 0 {
        assert(t.take(0).len() == 0);
    } else {
        lemma_push_prefix(b, s, t, (n - 1) as nat);
        let b1 = b.push_prefix(s, (n - 1) as nat)->0;
        lemma_push_edge(b1, s[n - 1], None);
        let b2 = b.push_prefix(s, n)->0;
        lemma_run_keeps(b1.dfa.edges, b2.dfa.edges, b.state, t.take(n - 1));
        assert(t.take(n as int).drop_last() =~= t.take(n - 1));
        assert(eq_ignore_ascii_case(s[n - 1], t[n - 1]));
    }
}

/// A pushed string is matched regardless of the case of its ASCII letters:
/// whatever string equals it but for case leads from the state the push
/// started at to the state it reached. No transition is changed on the way.
pub proof fn lemma_push_matches_ignoring_case(b: BuilderModel, s: Seq<char>, t: Seq<char>)
    requires
        b.push(s) is Some,
        t.len() == s.len(),
        forall|i: int| 0 <= i < s.len() ==> eq_ignore_ascii_case(#[trigger] s[i], t[i]),
    ensures
        keeps_transitions(b.dfa.edges, b.push(s)->0.dfa.edges),
        run(b.push(s)->0.dfa.edges, b.state, t) == Some(b.push(s)->0.state),
{
    lemma_push_prefix(b, s, t, s.len());
    assert(t.take(s.len() as int) =~= t);
}

proof fn lemma_push_repeat(b: BuilderModel, c: char, n: nat)
    requires
        b.push_repeat(c, n) is Some,
    ensures
        keeps_transitions(b.dfa.edges, b.push_repeat(c, n)->0.dfa.edges),
    decreases n,
{
    if n > 0 {
        lemma_push_repeat(b, c, (n - 1) as nat);
        lemma_push_edge(b.push_repeat(c, (n - 1) as nat)->0, c, None);
    }
}

proof fn lemma_push_restart(b: BuilderModel, s: Seq<char>, fin: StateId, n: nat)
    requires
        b.push_restart(s, fin, n) is Some,
    ensures
        keeps_transitions(b.dfa.edges, b.push_restart(s, fin, n)->0.dfa.edges),
    decreases n,
{
    if n > 0 {
        lemma_push_restart(b, s, fin, (n - 1) as nat);
        lemma_push_edge(
            b.push_restart(s, fin, (n - 1) as nat)->0,
            s[n - 1],
            super::dfa::optional_target(s, n - 1, fin),
        );
    }
}

proof fn lemma_walk_states(d: DfaModel, from: StateId, s: Seq<char>, n: nat)
    requires
        d.walk_states(from, s, n) is Some,
    ensures
        (d.walk_states(from, s, n)->0).0.edges == d.edges,
    decreases n,
{
    if n > 0 {
        lemma_walk_states(d, from, s, (n - 1) as nat);
    }
}

/// Transitions, once inserted, are never changed: each step of building a
/// pattern keeps every transition the DFA had, to the same state.
pub proof fn lemma_builder_keeps_transitions(b: BuilderModel, s: Seq<char>, start: RangeBound, end: RangeBound)
    ensures
        b.push(s) is Some ==> keeps_transitions(b.dfa.edges, b.push(s)->0.dfa.edges),
        b.push_any(start, end) is Some ==> keeps_transitions(
            b.dfa.edges,
            b.push_any(start, end)->0.dfa.edges,
        ),
        b.restart_with(s) is Some ==> keeps_transitions(b.dfa.edges, b.restart_with(s)->0.dfa.edges),
        keeps_transitions(b.dfa.edges, b.push_optional(s).dfa.edges),
        b.start_capturing() is Some ==> b.start_capturing()->0.dfa.edges == b.dfa.edges,
        b.end_capturing() is Some ==> b.end_capturing()->0.dfa.edges == b.dfa.edges,
        b.done() is Some ==> b.done()->0.dfa.edges == b.dfa.edges,
{
    if b.push(s) is Some {
        lemma_push_matches_ignoring_case(b, s, s);
    }
    if b.push_any(start, end) is Some {
        let min = super::dfa::range_min_len(start);
        lemma_push_repeat(b, super::dfa::ANY_INPUT, min as nat);
        let b1 = b.push_repeat(super::dfa::ANY_INPUT, min as nat)->0;
        if end is Unbounded {
            lemma_push_edge_ci(b1.dfa, b1.state, super::dfa::ANY_INPUT, Some(b1.state));
        }
    }
    if b.restart_with(s) is Some {
        lemma_walk_states(b.dfa, b.dfa.any, s, s.len());
        let (d, fin) = b.dfa.walk_states(b.dfa.any, s, s.len())->0;
        lemma_push_restart(BuilderModel { dfa: d, ..b }, s, fin, s.len());
    }
}

/// `q` has no transition and carries no action.
pub open spec fn is_leaf(d: DfaModel, q: StateId) -> bool {
    &&& forall|c: char| !(#[trigger] d.edges.contains_key((q, c)))
    &&& !d.actions.contains_key(q)
}

/// The transitions and actions of `d` involve nothing but its states.
pub open spec fn only_states(d: DfaModel) -> bool {
    &&& forall|k: (StateId, char)| #[trigger]
        d.edges.contains_key(k) ==> d.has_state(k.0) && d.has_state(d.edges[k])
    &&& forall|s: StateId| #[trigger] d.actions.contains_key(s) ==> d.has_state(s)
}

/// The builder sits at a state without transitions, that carries no action
/// if a capture is to start there, with no optional string pending, and its
/// DFA involves nothing but its states.
pub open spec fn at_leaf(b: BuilderModel) -> bool {
    &&& b.optional_prefixes.len() == 0
    &&& forall|c: char| !(#[trigger] b.dfa.edges.contains_key((b.state, c)))
    &&& b.start_capture is Some ==> !b.dfa.actions.contains_key(b.state)
    &&& b.dfa.has_state(b.state)
    &&& only_states(b.dfa)
}

proof fn lemma_insert_optionals_empty(d: DfaModel, start: StateId, p: Seq<Seq<char>>)
    requires
        p.len() == 0,
    ensures
        d.insert_optionals(start, p) == Some(d),
{
}

/// One character pushed from a leaf leads to a fresh leaf.
proof fn lemma_push_edge_from_leaf(b: BuilderModel, c: char)
    requires
        at_leaf(b),
        b.dfa.num_states + 3 < u16::MAX,
    ensures
        b.push_edge(c, None) is Some,
        at_leaf(b.push_edge(c, None)->0),
        is_leaf(b.push_edge(c, None)->0.dfa, b.push_edge(c, None)->0.state),
        b.push_edge(c, None)->0.dfa.num_states <= b.dfa.num_states + 3,
        b.push_edge(c, None)->0.start_capture is None,
        b.push_edge(c, None)->0.end_capture == (if b.start_capture is Some {
            b.start_capture
        } else {
            b.end_capture
        }),
        b.push_edge(c, None)->0.dfa.num_captures == b.dfa.num_captures,
        b.push_edge(c, None)->0.dfa.num_matches == b.dfa.num_matches,
        b.push_edge(c, None)->0.dfa.init == b.dfa.init,
        b.push_edge(c, None)->0.dfa.any == b.dfa.any,
        b.push_edge(c, None)->0.dfa.actions == (match b.start_capture {
            Some(id) => b.dfa.actions.insert(b.state, super::Action::StartCapture(id)),
            None => b.dfa.actions,
        }),
{
    lemma_insert_optionals_empty(b.dfa, b.state, b.optional_prefixes);
    let d1 = b.dfa;
    let d2 = match b.start_capture {
        Some(id) => d1.add_action(b.state, super::Action::StartCapture(id))->0,
        None => d1,
    };
    assert(!d2.edges.contains_key((b.state, c)));
    let (d3, f) = d2.new_state()->0;
    assert(!d2.has_state(f));
    assert forall|c2: char| !(#[trigger] d2.edges.contains_key((f, c2))) by {
        if d2.edges.contains_key((f, c2)) {
            assert(d2.has_state(f));
        }
    }
    assert(!d2.actions.contains_key(f)) by {
        if d2.actions.contains_key(f) {
            assert(d2.has_state(f));
        }
    }
    let b2 = b.push_edge(c, None)->0;
    assert(b2.state == f);
    assert(is_leaf(b2.dfa, f));
    assert(only_states(b2.dfa));
}

proof fn lemma_push_prefix_from_leaf(b: BuilderModel, s: Seq<char>, n: nat)
    requires
        at_leaf(b),
        n <= s.len(),
        b.dfa.num_states + 3 * n + 3 < u16::MAX,
    ensures
        b.push_prefix(s, n) is Some,
        at_leaf(b.push_prefix(s, n)->0),
        n > 0 ==> is_leaf(b.push_prefix(s, n)->0.dfa, b.push_prefix(s, n)->0.state),
        b.push_prefix(s, n)->0.dfa.num_states <= b.dfa.num_states + 3 * n,
        n > 0 ==> b.push_prefix(s, n)->0.start_capture is None,
        n > 0 ==> b.push_prefix(s, n)->0.end_capture == (if b.start_capture is Some {
            b.start_capture
        } else {
            b.end_capture
        }),
        n == 0 ==> b.push_prefix(s, n) == Some(b),
        b.push_prefix(s, n)->0.dfa.num_captures == b.dfa.num_captures,
        b.push_prefix(s, n)->0.dfa.num_matches == b.dfa.num_matches,
        b.push_prefix(s, n)->0.dfa.init == b.dfa.init,
        b.push_prefix(s, n)->0.dfa.any == b.dfa.any,
        b.push_prefix(s, n)->0.dfa.actions == (match b.start_capture {
            Some(id) => if n > 0 {
                b.dfa.actions.insert(b.state, super::Action::StartCapture(id))
            } else {
                b.dfa.actions
            },
            None => b.dfa.actions,
        }),
    decreases n,
{
    if n > 0 {
        lemma_push_prefix_from_leaf(b, s, (n - 1) as nat);
        lemma_push_edge_from_leaf(b.push_prefix(s, (n - 1) as nat)->0, s[n - 1]);
    }
}

/// A string pushed from a state without transitions, with no optional
/// string pending, cannot fail as long as state ids remain: it
/// leads to a fresh such state, with at most three ids used per character.
pub proof fn lemma_push_from_leaf(b: BuilderModel, s: Seq<char>)
    requires
        at_leaf(b),
        b.dfa.num_states + 3 * s.len() + 3 < u16::MAX,
    ensures
        b.push(s) is Some,
        at_leaf(b.push(s)->0),
        s.len() > 0 ==> is_leaf(b.push(s)->0.dfa, b.push(s)->0.state),
        b.push(s)->0.dfa.num_states <= b.dfa.num_states + 3 * s.len(),
        s.len() > 0 ==> b.push(s)->0.start_capture is None,
        s.len() > 0 ==> b.push(s)->0.end_capture == (if b.start_capture is Some {
            b.start_capture
        } else {
            b.end_capture
        }),
        s.len() == 0 ==> b.push(s) == Some(b),
        b.push(s)->0.dfa.num_captures == b.dfa.num_captures,
        b.push(s)->0.dfa.num_matches == b.dfa.num_matches,
        b.push(s)->0.dfa.init == b.dfa.init,
        b.push(s)->0.dfa.any == b.dfa.any,
        b.push(s)->0.dfa.actions == (match b.start_capture {
            Some(id) => if s.len() > 0 {
                b.dfa.actions.insert(b.state, super::Action::StartCapture(id))
            } else {
                b.dfa.actions
            },
            None => b.dfa.actions,
        }),
{
    lemma_push_prefix_from_leaf(b, s, s.len());
}

/// One character pushed from a leaf leaves any other leaf state of the DFA
/// a leaf, and leads elsewhere.
proof fn lemma_push_edge_keeps_leaf(b: BuilderModel, c: char, q: StateId)
    requires
        at_leaf(b),
        b.dfa.num_states + 3 < u16::MAX,
        q != b.state,
        b.dfa.has_state(q),
        is_leaf(b.dfa, q),
    ensures
        is_leaf(b.push_edge(c, None)->0.dfa, q),
        b.push_edge(c, None)->0.dfa.has_state(q),
        b.push_edge(c, None)->0.state != q,
{
    lemma_push_edge_from_leaf(b, c);
    lemma_insert_optionals_empty(b.dfa, b.state, b.optional_prefixes);
    let d1 = b.dfa;
    let d2 = match b.start_capture {
        Some(id) => d1.add_action(b.state, super::Action::StartCapture(id))->0,
        None => d1,
    };
    assert(d2.edges == d1.edges);
    let (d3, f) = d2.new_state()->0;
    lemma_new_state_is_fresh(d2);
    let b2 = b.push_edge(c, None)->0;
    assert(b2.state == f);
    assert forall|c2: char| !(#[trigger] b2.dfa.edges.contains_key((q, c2))) by {
        assert(!d2.edges.contains_key((q, c2)));
        assert((q, c2) != (b.state, ascii_lower(c)));
        assert((q, c2) != (b.state, ascii_upper(c)));
    }
    assert(!b2.dfa.actions.contains_key(q));
}

proof fn lemma_push_prefix_keeps_leaf(b: BuilderModel, s: Seq<char>, n: nat, q: StateId)
    requires
        at_leaf(b),
        n <= s.len(),
        b.dfa.num_states + 3 * n + 3 < u16::MAX,
        q != b.state,
        b.dfa.has_state(q),
        is_leaf(b.dfa, q),
    ensures
        is_leaf(b.push_prefix(s, n)->0.dfa, q),
        b.push_prefix(s, n)->0.dfa.has_state(q),
        b.push_prefix(s, n)->0.state != q,
    decreases n,
{
    if n > 0 {
        lemma_push_prefix_keeps_leaf(b, s, (n - 1) as nat, q);
        lemma_push_prefix_from_leaf(b, s, (n - 1) as nat);
        lemma_push_edge_keeps_leaf(b.push_prefix(s, (n - 1) as nat)->0, s[n - 1], q);
    }
}

/// A string pushed from a leaf leaves any other leaf state of the DFA a
/// leaf, and does not end there.
pub proof fn lemma_push_keeps_leaf(b: BuilderModel, s: Seq<char>, q: StateId)
    requires
        at_leaf(b),
        b.dfa.num_states + 3 * s.len() + 3 < u16::MAX,
        q != b.state,
        b.dfa.has_state(q),
        is_leaf(b.dfa, q),
    ensures
        is_leaf(b.push(s)->0.dfa, q),
        b.push(s)->0.dfa.has_state(q),
        b.push(s)->0.state != q,
{
    lemma_push_prefix_keeps_leaf(b, s, s.len(), q);
}

/// A fresh state is none of the DFA's states, the reserved ones included,
/// and is one afterwards.
pub proof fn lemma_new_state_is_fresh(d: DfaModel)
    requires
        d.new_state() is Some,
    ensures
        ({
            let (d2, s) = d.new_state()->0;
            &&& !d.has_state(s)
            &&& d2.has_state(s)
            &&& s != d.init && s != d.any
            &&& forall|t: StateId| d.has_state(t) ==> d2.has_state(t)
        }),
{
}

/// Following `a` and then `b` is following `a + b`.
pub proof fn lemma_run_concat(
    edges: Map<(StateId, char), StateId>,
    from: StateId,
    a: Seq<char>,
    b: Seq<char>,
)
    requires
        run(edges, from, a) is Some,
    ensures
        run(edges, from, a + b) == run(edges, run(edges, from, a)->0, b),
    decreases b.len(),
{
    if b.len() == 0 {
        assert(a + b =~= a);
    } else {
        lemma_run_concat(edges, from, a, b.drop_last());
        assert((a + b).drop_last() =~= a + b.drop_last());
    }
}

/// Captures and matches are numbered in the order in which they are
/// configured: starting a capture takes the next capture id, and ending it
/// reports the range under the next match id, at the state the pattern has
/// reached.
pub proof fn lemma_ids_in_order(b: BuilderModel)
    ensures
        b.start_capturing() matches Some(b2) ==> b2.start_capture == Some(CaptureId(b.dfa.num_captures))
            && b2.dfa.num_captures == b.dfa.num_captures + 1,
        b.end_capturing() matches Some(b2) ==> b.end_capture matches Some(cid)
            && b2.dfa.num_matches == b.dfa.num_matches + 1 && b2.dfa.actions.contains_key(b.state)
            && b2.dfa.actions[b.state].capture() == Some(Capture::End(cid, MatchId(b.dfa.num_matches))),
{
    if b.end_capturing() is Some {
        let cid = b.end_capture->0;
        let (d1, _) = b.dfa.new_match()->0;
        let e = super::Action::EndCapture(cid, MatchId(b.dfa.num_matches));
        if d1.actions.contains_key(b.state) {
            let a = d1.actions[b.state];
            assert(a.compatible(e));
            assert(a.combine(e)->0.capture() == e.capture());
        }
    }
}

/// Where `n` characters of `s` already lead from `from`, walking them
/// allocates nothing and ends where they lead.
proof fn lemma_walk_states_follows(d: DfaModel, from: StateId, s: Seq<char>, n: nat)
    requires
        n <= s.len(),
        run(d.edges, from, s.take(n as int)) is Some,
    ensures
        d.walk_states(from, s, n) == Some((d, run(d.edges, from, s.take(n as int))->0)),
    decreases n,
{
    if n > 0 {
        assert(s.take(n as int).drop_last() =~= s.take(n - 1));
        assert(s.take(n as int).last() == s[n - 1]);
        lemma_walk_states_follows(d, from, s, (n - 1) as nat);
    }
}

/// Restarting with `s` ends the pattern at the state the DFA would be in
/// had it followed `s` from the state unmatched input leads back to: the
/// state `s` already leads to from there, if it does.
pub proof fn lemma_restart_with_ends_where_any_leads(b: BuilderModel, s: Seq<char>)
    requires
        b.restart_with(s) is Some,
        s.len() > 0,
    ensures
        b.restart_with(s)->0.state == (b.dfa.walk_states(b.dfa.any, s, s.len())->0).1,
        run(b.dfa.edges, b.dfa.any, s) matches Some(q) ==> b.restart_with(s)->0.state == q,
{
    let (d, fin) = b.dfa.walk_states(b.dfa.any, s, s.len())->0;
    let b1 = BuilderModel { dfa: d, ..b };
    let n = s.len();
    let bp = b1.push_restart(s, fin, (n - 1) as nat)->0;
    assert(super::dfa::optional_target(s, n - 1, fin) == Some(fin));
    assert(bp.push_edge(s[n - 1], Some(fin))->0.state == fin);
    if run(b.dfa.edges, b.dfa.any, s) is Some {
        assert(s.take(n as int) =~= s);
        lemma_walk_states_follows(b.dfa, b.dfa.any, s, n);
    }
}

/// Whether `s` already leads from `from` in `d`, each character on both of
/// its cases to the same state.
pub open spec fn has_path(d: DfaModel, from: StateId, s: Seq<char>) -> bool
    decreases s.len(),
{
    if s.len() == 0 {
        true
    } else {
        &&& has_path(d, from, s.drop_last())
        &&& run(d.edges, from, s.drop_last()) matches Some(q) && {
            let c = s.last();
            &&& d.edges.contains_key((q, ascii_lower(c)))
            &&& d.edges.contains_key((q, ascii_upper(c)))
            &&& d.edges[(q, ascii_lower(c))] == d.edges[(q, ascii_upper(c))]
        }
    }
}

proof fn lemma_push_prefix_existing(b: BuilderModel, s: Seq<char>, n: nat)
    requires
        n <= s.len(),
        b.optional_prefixes.len() == 0,
        b.start_capture is None,
        has_path(b.dfa, b.state, s.take(n as int)),
    ensures
        run(b.dfa.edges, b.state, s.take(n as int)) is Some,
        b.push_prefix(s, n) == Some(
            BuilderModel { state: run(b.dfa.edges, b.state, s.take(n as int))->0, ..b },
        ),
    decreases n,
{
    if n == 0 {
    } else {
        let t = s.take(n as int);
        assert(t.drop_last() =~= s.take(n - 1));
        lemma_push_prefix_existing(b, s, (n - 1) as nat);
        let q = run(b.dfa.edges, b.state, s.take(n - 1))->0;
        let c = s[n - 1];
        assert(t.last() == c);
        lemma_case_variants(c, c);
        let b1 = BuilderModel { state: q, ..b };
        lemma_insert_optionals_empty(b1.dfa, q, b1.optional_prefixes);
        assert(b.dfa.edges.contains_key((q, c)));
        let x = b.dfa.edges[(q, c)];
        assert(b.dfa.edges[(q, ascii_lower(c))] == x);
        assert(b.dfa.edges[(q, ascii_upper(c))] == x);
        assert(b.dfa.insert_edge(q, ascii_lower(c), x) == Some(b.dfa));
        assert(b.dfa.insert_edge(q, ascii_upper(c), x) == Some(b.dfa));
        assert(b.dfa.push_edge_case_insensitive(q, c, None) == Some((b.dfa, x)));
        assert(b.optional_prefixes =~= Seq::empty());
        assert(b1.push_edge(c, None) == Some(BuilderModel { state: x, ..b }));
        assert(run(b.dfa.edges, b.state, t) == Some(x));
    }
}

/// Pushing a path that already exists, both cases of each letter included,
/// with no optional string or capture pending, adds no transition, action or
/// state: the pattern just follows the path.
pub proof fn lemma_push_existing_path(b: BuilderModel, s: Seq<char>)
    requires
        b.optional_prefixes.len() == 0,
        b.start_capture is None,
        has_path(b.dfa, b.state, s),
    ensures
        run(b.dfa.edges, b.state, s) is Some,
        b.push(s) == Some(BuilderModel { state: run(b.dfa.edges, b.state, s)->0, ..b }),
{
    assert(s.take(s.len() as int) =~= s);
    lemma_push_prefix_existing(b, s, s.len());
}

/// A transition is never redirected: inserting one fails exactly where the
/// same state and input already lead elsewhere, and otherwise adds it and
/// changes nothing else.
pub proof fn lemma_insert_edge_never_redirects(d: DfaModel, from: StateId, input: char, to: StateId)
    ensures
        d.insert_edge(from, input, to) is None <==> d.edges.contains_key((from, input))
            && d.edges[(from, input)] != to,
        d.insert_edge(from, input, to) matches Some(d2) ==> d2 == (DfaModel {
            edges: d.edges.insert((from, input), to),
            ..d
        }),
{
    if d.edges.contains_key((from, input)) && d.edges[(from, input)] == to {
        assert(d.edges.insert((from, input), to) =~= d.edges);
    }
}

/// `d2` keeps the reserved states of `d1`, and at least its state ids.
pub open spec fn grows(d1: DfaModel, d2: DfaModel) -> bool {
    &&& d2.init == d1.init
    &&& d2.any == d1.any
    &&& d1.num_states <= d2.num_states
}

/// The builder sits at a state of its DFA, whose transitions and actions
/// involve nothing but its states.
pub open spec fn builder_ok(b: BuilderModel) -> bool {
    only_states(b.dfa) && b.dfa.has_state(b.state)
}

proof fn lemma_grows_keeps_only_states(d1: DfaModel, d2: DfaModel)
    requires
        only_states(d1),
        grows(d1, d2),
        d2.edges == d1.edges,
        d2.actions == d1.actions,
    ensures
        only_states(d2),
{
}

proof fn lemma_next_state_ok(d: DfaModel, from: StateId, c: char)
    requires
        only_states(d),
        d.next_state(from, c) is Some,
    ensures
        ({
            let (d2, t) = d.next_state(from, c)->0;
            &&& only_states(d2)
            &&& d2.has_state(t) || !d.has_state(from)
            &&& grows(d, d2)
            &&& d2.edges == d.edges
            &&& d2.actions == d.actions
        }),
{
    if !d.edges.contains_key((from, c)) {
        let (d2, t) = d.next_state(from, c)->0;
        lemma_grows_keeps_only_states(d, d2);
    }
}

proof fn lemma_pec_ok(d: DfaModel, from: StateId, c: char, to: Option<StateId>)
    requires
        only_states(d),
        d.has_state(from),
        to matches Some(t) ==> d.has_state(t),
        d.push_edge_case_insensitive(from, c, to) is Some,
    ensures
        ({
            let (d3, x) = d.push_edge_case_insensitive(from, c, to)->0;
            &&& only_states(d3)
            &&& d3.has_state(x)
            &&& grows(d, d3)
            &&& d3.actions == d.actions
        }),
{
    lemma_next_state_ok(d, from, c);
    let (d1, next) = d.next_state(from, c)->0;
    let target = match to {
        Some(t) => t,
        None => next,
    };
    assert(d1.has_state(target));
    assert(d1.has_state(from));
    let d2 = d1.insert_edge(from, ascii_lower(c), target)->0;
    assert(only_states(d2));
    if ascii_upper(c) != ascii_lower(c) {
        let d3 = d2.insert_edge(from, ascii_upper(c), target)->0;
        assert(only_states(d3));
    }
}

proof fn lemma_walk_optional_ok(d: DfaModel, start: StateId, o: Seq<char>, n: nat)
    requires
        only_states(d),
        d.has_state(start),
        d.walk_optional(start, o, n) is Some,
    ensures
        ({
            let (d2, q) = d.walk_optional(start, o, n)->0;
            &&& only_states(d2)
            &&& d2.has_state(q)
            &&& grows(d, d2)
            &&& d2.actions == d.actions
        }),
    decreases n,
{
    if n > 0 {
        lemma_walk_optional_ok(d, start, o, (n - 1) as nat);
        let (d1, q) = d.walk_optional(start, o, (n - 1) as nat)->0;
        lemma_pec_ok(d1, q, o[n - 1], super::dfa::optional_target(o, n - 1, start));
    }
}

proof fn lemma_insert_optionals_ok(d: DfaModel, start: StateId, p: Seq<Seq<char>>)
    requires
        only_states(d),
        d.has_state(start),
        d.insert_optionals(start, p) is Some,
    ensures
        only_states(d.insert_optionals(start, p)->0),
        grows(d, d.insert_optionals(start, p)->0),
        d.insert_optionals(start, p)->0.actions == d.actions,
    decreases p.len(),
{
    if p.len() > 0 {
        lemma_walk_optional_ok(d, start, p.last(), p.last().len());
        let (d1, _) = d.walk_optional(start, p.last(), p.last().len())->0;
        lemma_insert_optionals_ok(d1, start, p.drop_last());
    }
}

proof fn lemma_push_edge_ok(b: BuilderModel, c: char, to: Option<StateId>)
    requires
        builder_ok(b),
        to matches Some(t) ==> b.dfa.has_state(t),
        b.push_edge(c, to) is Some,
    ensures
        builder_ok(b.push_edge(c, to)->0),
        grows(b.dfa, b.push_edge(c, to)->0.dfa),
{
    lemma_insert_optionals_ok(b.dfa, b.state, b.optional_prefixes);
    let d1 = b.dfa.insert_optionals(b.state, b.optional_prefixes)->0;
    let d2 = match b.start_capture {
        Some(id) => d1.add_action(b.state, super::Action::StartCapture(id))->0,
        None => d1,
    };
    assert(only_states(d2));
    lemma_pec_ok(d2, b.state, c, to);
}

proof fn lemma_push_prefix_ok(b: BuilderModel, s: Seq<char>, n: nat)
    requires
        builder_ok(b),
        b.push_prefix(s, n) is Some,
    ensures
        builder_ok(b.push_prefix(s, n)->0),
        grows(b.dfa, b.push_prefix(s, n)->0.dfa),
    decreases n,
{
    if n > 0 {
        lemma_push_prefix_ok(b, s, (n - 1) as nat);
        lemma_push_edge_ok(b.push_prefix(s, (n - 1) as nat)->0, s[n - 1], None);
    }
}

proof fn lemma_push_repeat_ok(b: BuilderModel, c: char, n: nat)
    requires
        builder_ok(b),
        b.push_repeat(c, n) is Some,
    ensures
        builder_ok(b.push_repeat(c, n)->0),
        grows(b.dfa, b.push_repeat(c, n)->0.dfa),
    decreases n,
{
    if n > 0 {
        lemma_push_repeat_ok(b, c, (n - 1) as nat);
        lemma_push_edge_ok(b.push_repeat(c, (n - 1) as nat)->0, c, None);
    }
}

proof fn lemma_walk_states_ok(d: DfaModel, from: StateId, s: Seq<char>, n: nat)
    requires
        only_states(d),
        d.has_state(from),
        d.walk_states(from, s, n) is Some,
    ensures
        ({
            let (d2, q) = d.walk_states(from, s, n)->0;
            &&& only_states(d2)
            &&& d2.has_state(q)
            &&& grows(d, d2)
            &&& d2.edges == d.edges
            &&& d2.actions == d.actions
        }),
    decreases n,
{
    if n > 0 {
        lemma_walk_states_ok(d, from, s, (n - 1) as nat);
        let (d1, q) = d.walk_states(from, s, (n - 1) as nat)->0;
        lemma_next_state_ok(d1, q, s[n - 1]);
    }
}

proof fn lemma_push_restart_ok(b: BuilderModel, s: Seq<char>, fin: StateId, n: nat)
    requires
        builder_ok(b),
        b.dfa.has_state(fin),
        b.push_restart(s, fin, n) is Some,
    ensures
        builder_ok(b.push_restart(s, fin, n)->0),
        grows(b.dfa, b.push_restart(s, fin, n)->0.dfa),
    decreases n,
{
    if n > 0 {
        lemma_push_restart_ok(b, s, fin, (n - 1) as nat);
        lemma_push_edge_ok(
            b.push_restart(s, fin, (n - 1) as nat)->0,
            s[n - 1],
            super::dfa::optional_target(s, n - 1, fin),
        );
    }
}

proof fn lemma_push_between_ok(b: BuilderModel, s: Seq<char>, k: nat, n: nat, fin: Option<StateId>)
    requires
        builder_ok(b),
        fin matches Some(f) ==> b.dfa.has_state(f),
        b.push_between(s, k, n, fin) is Some,
    ensures
        builder_ok(b.push_between(s, k, n, fin)->0),
        grows(b.dfa, b.push_between(s, k, n, fin)->0.dfa),
    decreases n,
{
    if n > k {
        lemma_push_between_ok(b, s, k, (n - 1) as nat, fin);
        lemma_push_edge_ok(
            b.push_between(s, k, (n - 1) as nat, fin)->0,
            s[n - 1],
            if n - 1 == s.len() - 1 {
                fin
            } else {
                None
            },
        );
    }
}

proof fn lemma_end_capturing_ok(b: BuilderModel)
    requires
        builder_ok(b),
        b.end_capturing() is Some,
    ensures
        builder_ok(b.end_capturing()->0),
        grows(b.dfa, b.end_capturing()->0.dfa),
{
}

/// Building a pattern keeps the transitions and actions of the DFA within
/// its states: every step from a builder at one of its states, whose DFA
/// involves nothing but its states, leads to such a builder again, and
/// keeps the states it had.
pub proof fn lemma_builder_keeps_states(b: BuilderModel, s: Seq<char>, start: RangeBound, end: RangeBound)
    requires
        builder_ok(b),
    ensures
        b.push(s) is Some ==> builder_ok(b.push(s)->0) && grows(b.dfa, b.push(s)->0.dfa),
        b.push_any(start, end) is Some ==> builder_ok(b.push_any(start, end)->0) && grows(
            b.dfa,
            b.push_any(start, end)->0.dfa,
        ),
        builder_ok(b.push_optional(s)),
        b.start_capturing() is Some ==> builder_ok(b.start_capturing()->0) && grows(
            b.dfa,
            b.start_capturing()->0.dfa,
        ),
        b.end_capturing() is Some ==> builder_ok(b.end_capturing()->0) && grows(
            b.dfa,
            b.end_capturing()->0.dfa,
        ),
        b.restart_with(s) is Some ==> builder_ok(b.restart_with(s)->0) && grows(
            b.dfa,
            b.restart_with(s)->0.dfa,
        ),
        b.end_capturing_with(s) is Some ==> builder_ok(b.end_capturing_with(s)->0) && grows(
            b.dfa,
            b.end_capturing_with(s)->0.dfa,
        ),
        b.end_capturing_and_restart_with(s) is Some ==> builder_ok(
            b.end_capturing_and_restart_with(s)->0,
        ) && grows(b.dfa, b.end_capturing_and_restart_with(s)->0.dfa),
        b.done() is Some ==> builder_ok(b.done()->0) && grows(b.dfa, b.done()->0.dfa),
{
    if b.push(s) is Some {
        lemma_push_prefix_ok(b, s, s.len());
    }
    if b.push_any(start, end) is Some {
        let min = super::dfa::range_min_len(start);
        lemma_push_repeat_ok(b, super::dfa::ANY_INPUT, min as nat);
        let b1 = b.push_repeat(super::dfa::ANY_INPUT, min as nat)->0;
        if end is Unbounded {
            lemma_pec_ok(b1.dfa, b1.state, super::dfa::ANY_INPUT, Some(b1.state));
        }
    }
    if b.end_capturing() is Some {
        lemma_end_capturing_ok(b);
    }
    if b.restart_with(s) is Some {
        lemma_walk_states_ok(b.dfa, b.dfa.any, s, s.len());
        let (d, fin) = b.dfa.walk_states(b.dfa.any, s, s.len())->0;
        let b1 = BuilderModel { dfa: d, ..b };
        lemma_push_restart_ok(b1, s, fin, s.len());
    }
    if b.end_capturing_with(s) is Some {
        lemma_push_between_ok(b, s, 0, 1, None);
        let b1 = b.push_between(s, 0, 1, None)->0;
        lemma_end_capturing_ok(b1);
        lemma_push_between_ok(b1.end_capturing()->0, s, 1, s.len(), None);
    }
    if b.end_capturing_and_restart_with(s) is Some {
        lemma_walk_states_ok(b.dfa, b.dfa.any, s, s.len());
        let (d, fin) = b.dfa.walk_states(b.dfa.any, s, s.len())->0;
        let b0 = BuilderModel { dfa: d, ..b };
        lemma_push_between_ok(b0, s, 0, 1, Some(fin));
        let b1 = b0.push_between(s, 0, 1, Some(fin))->0;
        lemma_end_capturing_ok(b1);
        lemma_push_between_ok(b1.end_capturing()->0, s, 1, s.len(), Some(fin));
    }
}

proof fn lemma_push_restart_matches(b: BuilderModel, s: Seq<char>, fin: StateId, n: nat)
    requires
        n <= s.len(),
        b.push_restart(s, fin, n) is Some,
    ensures
        keeps_transitions(b.dfa.edges, b.push_restart(s, fin, n)->0.dfa.edges),
        run(b.push_restart(s, fin, n)->0.dfa.edges, b.state, s.take(n as int)) == Some(
            b.push_restart(s, fin, n)->0.state,
        ),
    decreases n,
{
    if n == 0 {
        assert(s.take(0).len() == 0);
    } else {
        lemma_push_restart_matches(b, s, fin, (n - 1) as nat);
        let b1 = b.push_restart(s, fin, (n - 1) as nat)->0;
        lemma_push_edge(b1, s[n - 1], super::dfa::optional_target(s, n - 1, fin));
        let b2 = b.push_restart(s, fin, n)->0;
        lemma_run_keeps(b1.dfa.edges, b2.dfa.edges, b.state, s.take(n - 1));
        assert(s.take(n as int).drop_last() =~= s.take(n - 1));
        assert(eq_ignore_ascii_case(s[n - 1], s[n - 1]));
    }
}

/// Restarting with `s` makes `s`, read from the state the pattern had
/// reached, lead to the state it ends at; no transition is changed on the
/// way.
pub proof fn lemma_restart_with_matches(b: BuilderModel, s: Seq<char>)
    requires
        b.restart_with(s) is Some,
    ensures
        keeps_transitions(b.dfa.edges, b.restart_with(s)->0.dfa.edges),
        run(b.restart_with(s)->0.dfa.edges, b.state, s) == Some(b.restart_with(s)->0.state),
{
    lemma_walk_states(b.dfa, b.dfa.any, s, s.len());
    let (d, fin) = b.dfa.walk_states(b.dfa.any, s, s.len())->0;
    let b1 = BuilderModel { dfa: d, ..b };
    lemma_push_restart_matches(b1, s, fin, s.len());
    assert(s.take(s.len() as int) =~= s);
}

proof fn lemma_push_prefix_ext(b: BuilderModel, t: Seq<char>, u: Seq<char>, m: nat)
    requires
        m <= t.len(),
        m <= u.len(),
        t.take(m as int) == u.take(m as int),
    ensures
        b.push_prefix(t, m) == b.push_prefix(u, m),
    decreases m,
{
    if m > 0 {
        assert(t.take(m - 1) =~= t.take(m as int).take(m - 1));
        assert(u.take(m - 1) =~= u.take(m as int).take(m - 1));
        assert(t[m - 1] == t.take(m as int)[m - 1]);
        assert(u[m - 1] == u.take(m as int)[m - 1]);
        lemma_push_prefix_ext(b, t, u, (m - 1) as nat);
    }
}

proof fn lemma_push_between_is_push(b: BuilderModel, s: Seq<char>, k: nat, n: nat)
    requires
        k <= n <= s.len(),
    ensures
        b.push_between(s, k, n, None) == b.push(s.subrange(k as int, n as int)),
    decreases n,
{
    let t = s.subrange(k as int, n as int);
    if n == k {
        assert(t.len() == 0);
    } else {
        lemma_push_between_is_push(b, s, k, (n - 1) as nat);
        let u = s.subrange(k as int, n - 1);
        assert(t.take(n - 1 - k) =~= u.take(n - 1 - k));
        assert(u.take(u.len() as int) =~= u);
        lemma_push_prefix_ext(b, t, u, (n - 1 - k) as nat);
        assert(t[n - 1 - k] == s[n - 1]);
    }
}

/// Ending a capture with `s` appends the first character of `s`, ends the
/// capture at the state it leads to, and appends the rest of `s`.
pub proof fn lemma_end_capturing_with(b: BuilderModel, s: Seq<char>)
    requires
        s.len() > 0,
    ensures
        b.end_capturing_with(s) == (match b.push(s.take(1)) {
            None => None,
            Some(b1) => match b1.end_capturing() {
                None => None,
                Some(b2) => b2.push(s.subrange(1, s.len() as int)),
            },
        }),
{
    lemma_push_between_is_push(b, s, 0, 1);
    assert(s.subrange(0, 1) =~= s.take(1));
    if b.push(s.take(1)) is Some {
        let b1 = b.push(s.take(1))->0;
        if b1.end_capturing() is Some {
            lemma_push_between_is_push(b1.end_capturing()->0, s, 1, s.len());
        }
    }
}

proof fn lemma_push_between_matches(b: BuilderModel, s: Seq<char>, k: nat, n: nat, fin: Option<StateId>)
    requires
        k <= n <= s.len(),
        b.push_between(s, k, n, fin) is Some,
    ensures
        keeps_transitions(b.dfa.edges, b.push_between(s, k, n, fin)->0.dfa.edges),
        run(b.push_between(s, k, n, fin)->0.dfa.edges, b.state, s.subrange(k as int, n as int))
            == Some(b.push_between(s, k, n, fin)->0.state),
        k < n && n == s.len() && fin is Some ==> b.push_between(s, k, n, fin)->0.state == fin->0,
    decreases n,
{
    if n == k {
        assert(s.subrange(k as int, n as int).len() == 0);
    } else {
        lemma_push_between_matches(b, s, k, (n - 1) as nat, fin);
        let b1 = b.push_between(s, k, (n - 1) as nat, fin)->0;
        let to = if n - 1 == s.len() - 1 {
            fin
        } else {
            None
        };
        lemma_push_edge(b1, s[n - 1], to);
        let b2 = b.push_between(s, k, n, fin)->0;
        lemma_run_keeps(b1.dfa.edges, b2.dfa.edges, b.state, s.subrange(k as int, n - 1));
        assert(s.subrange(k as int, n as int).drop_last() =~= s.subrange(k as int, n - 1));
        assert(s.subrange(k as int, n as int).last() == s[n - 1]);
        assert(eq_ignore_ascii_case(s[n - 1], s[n - 1]));
    }
}

/// Ending a capture and restarting with `s` makes `s`, read from the state
/// the pattern had reached, lead to the state it ends at, which is the state
/// `s` already leads to from the state for unmatched input, if it does; no
/// transition is changed on the way.
pub proof fn lemma_end_capturing_and_restart_matches(b: BuilderModel, s: Seq<char>)
    requires
        b.end_capturing_and_restart_with(s) is Some,
    ensures
        keeps_transitions(b.dfa.edges, b.end_capturing_and_restart_with(s)->0.dfa.edges),
        run(b.end_capturing_and_restart_with(s)->0.dfa.edges, b.state, s) == Some(
            b.end_capturing_and_restart_with(s)->0.state,
        ),
        run(b.dfa.edges, b.dfa.any, s) matches Some(q) ==> b.end_capturing_and_restart_with(s)->0.state
            == q,
{
    lemma_walk_states(b.dfa, b.dfa.any, s, s.len());
    let (d, fin) = b.dfa.walk_states(b.dfa.any, s, s.len())->0;
    let b0 = BuilderModel { dfa: d, ..b };
    lemma_push_between_matches(b0, s, 0, 1, Some(fin));
    let b1 = b0.push_between(s, 0, 1, Some(fin))->0;
    let b2 = b1.end_capturing()->0;
    lemma_push_between_matches(b2, s, 1, s.len(), Some(fin));
    let b3 = b2.push_between(s, 1, s.len(), Some(fin))->0;
    lemma_run_keeps(b1.dfa.edges, b3.dfa.edges, b.state, s.subrange(0, 1));
    lemma_run_concat(b3.dfa.edges, b.state, s.subrange(0, 1), s.subrange(1, s.len() as int));
    assert(s.subrange(0, 1) + s.subrange(1, s.len() as int) =~= s);
    if s.len() == 1 {
        assert(b1.state == fin);
    }
    if run(b.dfa.edges, b.dfa.any, s) is Some {
        assert(s.take(s.len() as int) =~= s);
        lemma_walk_states_follows(b.dfa, b.dfa.any, s, s.len());
    }
}

} // verus!
