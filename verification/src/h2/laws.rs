//! What every compiled HTTP/2 pattern keeps of the DFA, and what it adds.
use vstd::prelude::*;
use super::Action;
use super::dfa::{BuilderModel, DfaModel, first_free};

verus! {

/// Follows `s` through `transitions` from `from`; `None` where a transition
/// is missing.
pub open spec fn run(transitions: Map<(u16, u8), (u16, Action)>, from: u16, s: Seq<u8>) -> Option<u16>
    decreases s.len(),
{
    if s.len() == 0 {
        Some(from)
    } else {
        match run(transitions, from, s.drop_last()) {
            None => None,
            Some(q) => if transitions.contains_key((q, s.last())) {
                Some(transitions[(q, s.last())].0)
            } else {
                None
            },
        }
    }
}

/// Every transition of `t1` is one of `t2`, with the same action.
pub open spec fn keeps_transitions(
    t1: Map<(u16, u8), (u16, Action)>,
    t2: Map<(u16, u8), (u16, Action)>,
) -> bool {
    forall|k: (u16, u8)| #[trigger] t1.contains_key(k) ==> t2.contains_key(k) && t2[k] == t1[k]
}

/// Every state of `d1` is one of `d2`.
pub open spec fn keeps_states(d1: DfaModel, d2: DfaModel) -> bool {
    forall|s: u16| #[trigger] d1.states.contains(s) ==> d2.states.contains(s)
}

pub proof fn lemma_run_keeps(
    t1: Map<(u16, u8), (u16, Action)>,
    t2: Map<(u16, u8), (u16, Action)>,
    from: u16,
    s: Seq<u8>,
)
    requires
        forall|k: (u16, u8)| #[trigger] t1.contains_key(k) ==> t2.contains_key(k) && t2[k].0 == t1[k].0,
        run(t1, from, s) is Some,
    ensures
        run(t2, from, s) == run(t1, from, s),
    decreases s.len(),
{
    if s.len() > 0 {
        lemma_run_keeps(t1, t2, from, s.drop_last());
    }
}

proof fn lemma_push_prefix(b: BuilderModel, s: Seq<u8>, n: nat)
    requires
        n <= s.len(),
        b.push_prefix(s, n) is Some,
    ensures
        ({
            let b2 = b.push_prefix(s, n)->0;
            &&& keeps_transitions(b.dfa.transitions, b2.dfa.transitions)
            &&& keeps_states(b.dfa, b2.dfa)
            &&& run(b2.dfa.transitions, b.sid, s.take(n as int)) == Some(b2.sid)
            &&& n > 0 ==> b2.prev_trans is Some && b2.dfa.transitions.contains_key(b2.prev_trans->0)
        }),
    decreases n,
{
    if n == 0 {
        assert(s.take(0).len() == 0);
    } else {
        lemma_push_prefix(b, s, (n - 1) as nat);
        let b1 = b.push_prefix(s, (n - 1) as nat)->0;
        let b2 = b.push_prefix(s, n)->0;
        let key = (b1.sid, s[n - 1]);
        if !b1.dfa.transitions.contains_key(key) {
            let r = choose|r: u16| super::dfa::first_free(b1.dfa.states, b1.dfa.sid, r);
            assert(!b1.dfa.states.contains(r));
        }
        assert(keeps_transitions(b1.dfa.transitions, b2.dfa.transitions));
        assert(keeps_states(b1.dfa, b2.dfa));
        assert(keeps_states(b.dfa, b2.dfa));
        assert(keeps_transitions(b.dfa.transitions, b2.dfa.transitions));
        lemma_run_keeps(b1.dfa.transitions, b2.dfa.transitions, b.sid, s.take(n - 1));
        assert(s.take(n as int).drop_last() =~= s.take(n - 1));
    }
}

/// A pushed pattern leads from the state it was pushed from to the state
/// it reached; the transitions (with their actions) and
/// the states the DFA had are kept.
pub proof fn lemma_push_matches(b: BuilderModel, s: Seq<u8>)
    requires
        b.push(s) is Some,
    ensures
        keeps_transitions(b.dfa.transitions, b.push(s)->0.dfa.transitions),
        keeps_states(b.dfa, b.push(s)->0.dfa),
        run(b.push(s)->0.dfa.transitions, b.sid, s) == Some(b.push(s)->0.sid),
{
    lemma_push_prefix(b, s, s.len());
    assert(s.take(s.len() as int) =~= s);
}

/// Capturing a field value changes nothing but the action of the last
/// transition, which captures under a capture id not handed out before.
pub proof fn lemma_capture_field_value(b: BuilderModel)
    requires
        b.capture_field_value() is Some,
        b.prev_trans is Some,
        b.dfa.transitions.contains_key(b.prev_trans->0),
    ensures
        ({
            let b2 = b.capture_field_value()->0;
            let key = b.prev_trans->0;
            &&& b2.dfa.states == b.dfa.states
            &&& b2.dfa.transitions.dom() == b.dfa.transitions.dom()
            &&& forall|k: (u16, u8)| #[trigger]
                b.dfa.transitions.contains_key(k) && k != key ==> b2.dfa.transitions[k]
                    == b.dfa.transitions[k]
            &&& b2.dfa.transitions[key] == (
                b.dfa.transitions[key].0,
                Action::CaptureFieldValue(b.dfa.cid),
            )
            &&& b2.dfa.cid == b.dfa.cid + 1
        }),
{
    let b2 = b.capture_field_value()->0;
    let key = b.prev_trans->0;
    assert(b2.dfa.transitions.dom() =~= b.dfa.transitions.dom());
}

/// Every state of `d` lies below `bound`, and so does the id the search
/// for a free one starts from, or is it.
pub open spec fn bounded_by(d: DfaModel, bound: int) -> bool {
    &&& d.sid <= bound
    &&& forall|s: u16| #[trigger] d.states.contains(s) ==> s < bound
}

/// There is a least free id as soon as there is a free one.
proof fn lemma_first_free_exists(states: Set<u16>, from: u16, x: u16)
    requires
        from <= x,
        !states.contains(x),
    ensures
        exists|r: u16| #[trigger] first_free(states, from, r) && r <= x,
    decreases x - from,
{
    if states.contains(from) {
        lemma_first_free_exists(states, (from + 1) as u16, x);
        let r = choose|r: u16| #[trigger] first_free(states, (from + 1) as u16, r) && r <= x;
        assert(first_free(states, from, r));
    } else {
        assert(first_free(states, from, from));
    }
}

proof fn lemma_push_prefix_within_bound(b: BuilderModel, s: Seq<u8>, n: nat, bound: int)
    requires
        n <= s.len(),
        bounded_by(b.dfa, bound),
        bound + n <= 0x10000,
    ensures
        b.push_prefix(s, n) is Some,
        bounded_by(b.push_prefix(s, n)->0.dfa, bound + n),
        b.push_prefix(s, n)->0.dfa.cid == b.dfa.cid,
        n > 0 ==> b.push_prefix(s, n)->0.prev_trans is Some,
    decreases n,
{
    if n > 0 {
        lemma_push_prefix_within_bound(b, s, (n - 1) as nat, bound);
        let b1 = b.push_prefix(s, (n - 1) as nat)->0;
        let key = (b1.sid, s[n - 1]);
        if !b1.dfa.transitions.contains_key(key) {
            let x = (bound + n - 1) as u16;
            assert(!b1.dfa.states.contains(x));
            lemma_first_free_exists(b1.dfa.states, b1.dfa.sid, x);
            let r = choose|r: u16| first_free(b1.dfa.states, b1.dfa.sid, r);
            let r2 = choose|r2: u16| #[trigger] first_free(b1.dfa.states, b1.dfa.sid, r2) && r2 <= x;
            if r != r2 {
                if r < r2 {
                    assert(b1.dfa.states.contains(r));
                } else {
                    assert(b1.dfa.states.contains(r2));
                }
            }
            assert(r <= x);
        }
    }
}

/// Appending `s` cannot run out of state ids while the DFA's states and
/// search start lie below a bound that leaves room for as many fresh ids as
/// `s` has bytes; the bound grows by at most that many.
pub proof fn lemma_push_within_bound(b: BuilderModel, s: Seq<u8>, bound: int)
    requires
        b.dfa.states.contains(b.sid),
        bounded_by(b.dfa, bound),
        bound + s.len() <= 0x10000,
    ensures
        b.push(s) is Some,
        bounded_by(b.push(s)->0.dfa, bound + s.len()),
        b.push(s)->0.dfa.cid == b.dfa.cid,
        s.len() > 0 ==> b.push(s)->0.prev_trans is Some,
{
    lemma_push_prefix_within_bound(b, s, s.len(), bound);
}

/// The DFA after `k` successive calls of
/// [`DfaModel::insert_new_capture_start`] on `d`, with the ids they hand
/// out in order; `None` where a call fails.
pub open spec fn capture_starts(d: DfaModel, k: nat) -> Option<(DfaModel, Seq<u8>)>
    decreases k,
{
    if k == 0 {
        Some((d, Seq::empty()))
    } else {
        match capture_starts(d, (k - 1) as nat) {
            None => None,
            Some((d2, ids)) => match d2.insert_new_capture_start() {
                None => None,
                Some((d3, id)) => Some((d3, ids.push(id))),
            },
        }
    }
}

/// Successive capture starts hand out the ids from the DFA's next free one
/// on, one after the other, so that none is handed out twice; nothing but
/// the next free id changes.
pub proof fn lemma_capture_ids_in_order(d: DfaModel, k: nat)
    requires
        d.cid + k <= u8::MAX,
    ensures
        capture_starts(d, k) matches Some((d2, ids)) && ids.len() == k && (forall|i: int|
            0 <= i < k ==> #[trigger] ids[i] == d.cid + i) && d2 == (DfaModel {
            cid: (d.cid + k) as u8,
            ..d
        }),
    decreases k,
{
    if k > 0 {
        lemma_capture_ids_in_order(d, (k - 1) as nat);
        let (d2, ids) = capture_starts(d, (k - 1) as nat)->0;
        let (d3, id) = d2.insert_new_capture_start()->0;
        assert forall|i: int| 0 <= i < k implies #[trigger] ids.push(id)[i] == d.cid + i by {
            if i < k - 1 {
                assert(ids.push(id)[i] == ids[i]);
            }
        }
    }
}

} // verus!
