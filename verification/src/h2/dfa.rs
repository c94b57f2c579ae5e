//! The DFA that HTTP/2 patterns are compiled into, over bytes.
use vstd::prelude::*;
use crate::assoc::{assoc_map, keys_unique};
use super::Action;
use std::collections::HashSet;
use vstd::std_specs::iter::IteratorSpec;

verus! {

broadcast use vstd::std_specs::hash::group_hash_axioms;

/// What a [`Dfa`] holds.
pub struct DfaModel {
    /// The id the search for an unused state starts from.
    pub sid: u16,
    /// The next free capture id.
    pub cid: u8,
    /// The states, the reserved ones included.
    pub states: Set<u16>,
    /// The transitions, by source state and input: the target and the action.
    pub transitions: Map<(u16, u8), (u16, Action)>,
}

/// Whether `r` is the least id from `from` on that `states` lacks.
pub open spec fn first_free(states: Set<u16>, from: u16, r: u16) -> bool {
    &&& from <= r
    &&& !states.contains(r)
    &&& forall|k: u16| from <= k < r ==> #[trigger] states.contains(k)
}

impl DfaModel {
    /// Inserts the least id from `sid` on that is no state yet; `None` where
    /// there is none.
    pub open spec fn insert_state(self) -> Option<(DfaModel, u16)> {
        if exists|r: u16| first_free(self.states, self.sid, r) {
            let r = choose|r: u16| first_free(self.states, self.sid, r);
            Some((DfaModel { sid: r, states: self.states.insert(r), ..self }, r))
        } else {
            None
        }
    }

    /// Hands out a fresh capture id; `None` where the ids run out.
    pub open spec fn insert_new_capture_start(self) -> Option<(DfaModel, u8)> {
        if self.cid < u8::MAX {
            Some((DfaModel { cid: (self.cid + 1) as u8, ..self }, self.cid))
        } else {
            None
        }
    }

    /// Inserts (or replaces) the transition on `input` from `from`.
    pub open spec fn insert_transition(self, from: u16, to: u16, input: u8, action: Action) -> DfaModel {
        DfaModel { transitions: self.transitions.insert((from, input), (to, action)), ..self }
    }

    /// Whether `t` lists, as (source, target, input, action), each
    /// transition exactly once.
    pub open spec fn lists_transitions(self, t: Seq<(u16, u16, u8, Action)>) -> bool {
        &&& t.len() == self.transitions.dom().len()
        &&& forall|i: int|
            0 <= i < t.len() ==> {
                &&& #[trigger] self.transitions.contains_key((t[i].0, t[i].2))
                &&& self.transitions[(t[i].0, t[i].2)] == (t[i].1, t[i].3)
            }
        &&& forall|i: int, j: int|
            0 <= i < t.len() && 0 <= j < t.len() && i != j ==> (t[i].0, t[i].2) != (t[j].0, t[j].2)
        &&& forall|k: (u16, u8)|
            #[trigger] self.transitions.contains_key(k) ==> exists|i: int|
                0 <= i < t.len() && (t[i].0, t[i].2) == k
    }
}

/// The DFA the patterns of a parser are compiled into.
///
/// It is injected into the BPF parser program as a table of transitions,
/// indexed by state and input byte.
pub struct Dfa {
    sid: u16,
    cid: u8,
    states: HashSet<u16>,
    transitions: Vec<((u16, u8), (u16, Action))>,
}

impl View for Dfa {
    type V = DfaModel;

    closed spec fn view(&self) -> DfaModel {
        DfaModel {
            sid: self.sid,
            cid: self.cid,
            states: self.states@,
            transitions: assoc_map(self.transitions@),
        }
    }
}

impl Dfa {
    /// No transition key occurs twice.
    pub closed spec fn wf(&self) -> bool {
        keys_unique(self.transitions@)
    }

    /// Creates a DFA that holds nothing but `reserved_states`, the states the
    /// BPF parser refers to by a fixed id.
    pub fn new(reserved_states: Vec<u16>) -> (dfa: Dfa)
        ensures
            dfa.wf(),
            dfa@.sid == 0,
            dfa@.cid == 0,
            dfa@.states == reserved_states@.to_set(),
            dfa@.transitions == Map::<(u16, u8), (u16, Action)>::empty(),
    {
        let mut states: HashSet<u16> = HashSet::new();
        let mut i: usize = 0;
        while i < reserved_states.len()
            invariant
                i <= reserved_states@.len(),
                states@ == reserved_states@.take(i as int).to_set(),
            decreases reserved_states@.len() - i,
        {
            let s = reserved_states[i];
            states.insert(s);
            proof {
                assert(reserved_states@.take(i + 1) =~= reserved_states@.take(i as int).push(s));
                reserved_states@.take(i as int).lemma_push_to_set_commute(s);
            }
            i = i + 1;
        }
        assert(reserved_states@.take(reserved_states@.len() as int) =~= reserved_states@);
        let dfa = Dfa { sid: 0, cid: 0, states, transitions: Vec::new() };
        assert(dfa@.transitions =~= Map::empty());
        dfa
    }
}

/// There is at most one least free id.
proof fn lemma_first_free_unique(states: Set<u16>, from: u16, r1: u16, r2: u16)
    requires
        first_free(states, from, r1),
        first_free(states, from, r2),
    ensures
        r1 == r2,
{
    if r1 < r2 {
        assert(states.contains(r1));
    }
    if r2 < r1 {
        assert(states.contains(r2));
    }
}

impl Dfa {
    /// Inserts an unused state and returns its id.
    fn insert_state(&mut self) -> (id: u16)
        requires
            old(self).wf(),
            old(self)@.insert_state() is Some,
        ensures
            final(self).wf(),
            (final(self)@, id) == old(self)@.insert_state()->0,
    {
        let ghost m0 = self@;
        let ghost r = choose|r: u16| first_free(m0.states, m0.sid, r);
        while self.states.contains(&self.sid)
            invariant
                self.wf(),
                self.states@ == old(self).states@,
                self.transitions@ == old(self).transitions@,
                self.cid == old(self).cid,
                m0 == old(self)@,
                first_free(m0.states, m0.sid, r),
                m0.sid <= self.sid <= r,
                forall|k: u16| m0.sid <= k < self.sid ==> #[trigger] m0.states.contains(k),
            decreases r - self.sid,
        {
            assert(self.sid != r);
            self.sid = self.sid + 1;
        }
        assert(first_free(m0.states, m0.sid, self.sid));
        proof {
            lemma_first_free_unique(m0.states, m0.sid, self.sid, r);
        }
        self.states.insert(self.sid);
        self.sid
    }

    /// Returns an unused capture id.
    fn insert_new_capture_start(&mut self) -> (cid: u8)
        requires
            old(self).wf(),
            old(self)@.insert_new_capture_start() is Some,
        ensures
            final(self).wf(),
            (final(self)@, cid) == old(self)@.insert_new_capture_start()->0,
    {
        let cid = self.cid;
        self.cid = self.cid + 1;
        cid
    }

    /// The position of the transition on `input` from `from`, if there is one.
    fn transition_index(&self, from: u16, input: u8) -> (idx: Option<usize>)
        requires
            self.wf(),
        ensures
            match idx {
                Some(i) => {
                    &&& i < self.transitions@.len()
                    &&& self.transitions@[i as int].0 == (from, input)
                    &&& self@.transitions.contains_key((from, input))
                    &&& self@.transitions[(from, input)] == self.transitions@[i as int].1
                },
                None => !self@.transitions.contains_key((from, input)),
            },
    {
        let mut i: usize = 0;
        while i < self.transitions.len()
            invariant
                i <= self.transitions@.len(),
                self.wf(),
                forall|j: int| 0 <= j < i ==> self.transitions@[j].0 != (from, input),
            decreases self.transitions@.len() - i,
        {
            let key = self.transitions[i].0;
            if key.0 == from && key.1 == input {
                proof {
                    crate::assoc::lemma_assoc_map_index(self.transitions@, i as int);
                }
                return Some(i);
            }
            i = i + 1;
        }
        proof {
            crate::assoc::lemma_assoc_map_absent(self.transitions@, (from, input));
        }
        None
    }

    /// Inserts a transition from `from` to `to`, matching `input` and
    /// carrying `action`. Returns the transition it replaced, if there was one.
    pub fn insert_transition(&mut self, from: u16, to: u16, input: u8, action: Action) -> (replaced:
        Option<(u16, Action)>)
        requires
            old(self).wf(),
        ensures
            final(self).wf(),
            final(self)@ == old(self)@.insert_transition(from, to, input, action),
            replaced == (if old(self)@.transitions.contains_key((from, input)) {
                Some(old(self)@.transitions[(from, input)])
            } else {
                None
            }),
    {
        match self.transition_index(from, input) {
            Some(i) => {
                let old_transition = self.transitions[i].1;
                proof {
                    crate::assoc::lemma_assoc_map_update(self.transitions@, i as int, (to, action));
                }
                self.transitions.set(i, ((from, input), (to, action)));
                Some(old_transition)
            },
            None => {
                proof {
                    assert forall|j: int| 0 <= j < self.transitions@.len() implies self.transitions@[j].0
                        != (from, input) by {
                        crate::assoc::lemma_assoc_map_index(self.transitions@, j);
                    }
                    crate::assoc::lemma_assoc_map_push(self.transitions@, (from, input), (to, action));
                }
                self.transitions.push(((from, input), (to, action)));
                None
            },
        }
    }

    /// Returns the transitions of the DFA, each as (source, target, input,
    /// action).
    pub fn iter_transitions(&self) -> (t: Vec<(u16, u16, u8, Action)>)
        requires
            self.wf(),
        ensures
            self@.lists_transitions(t@),
    {
        let mut t: Vec<(u16, u16, u8, Action)> = Vec::new();
        let mut i: usize = 0;
        while i < self.transitions.len()
            invariant
                self.wf(),
                i <= self.transitions@.len(),
                t@.len() == i,
                forall|j: int|
                    0 <= j < i ==> #[trigger] t@[j] == (
                        self.transitions@[j].0.0,
                        self.transitions@[j].1.0,
                        self.transitions@[j].0.1,
                        self.transitions@[j].1.1,
                    ),
            decreases self.transitions@.len() - i,
        {
            let ((from, input), (to, action)) = self.transitions[i];
            t.push((from, to, input, action));
            i = i + 1;
        }
        proof {
            crate::assoc::lemma_assoc_map_len(self.transitions@);
            assert forall|j: int| 0 <= j < t@.len() implies {
                &&& #[trigger] self@.transitions.contains_key((t@[j].0, t@[j].2))
                &&& self@.transitions[(t@[j].0, t@[j].2)] == (t@[j].1, t@[j].3)
            } by {
                crate::assoc::lemma_assoc_map_index(self.transitions@, j);
            }
            assert forall|k: (u16, u8)| #[trigger] self@.transitions.contains_key(k) implies exists|j: int|
                0 <= j < t@.len() && (t@[j].0, t@[j].2) == k by {
                crate::assoc::lemma_assoc_map_has_index(self.transitions@, k);
                let j = choose|j: int| 0 <= j < self.transitions@.len() && self.transitions@[j].0 == k;
                assert(t@[j] == (
                    self.transitions@[j].0.0,
                    self.transitions@[j].1.0,
                    self.transitions@[j].0.1,
                    self.transitions@[j].1.1,
                ));
            }
        }
        t
    }
}

/// What a [`DfaBuilder`] holds.
pub struct BuilderModel {
    /// The DFA the pattern is compiled into.
    pub dfa: DfaModel,
    /// The state the pattern has reached.
    pub sid: u16,
    /// The last transition the pattern took, by source state and input.
    pub prev_trans: Option<(u16, u8)>,
}

impl BuilderModel {
    /// Follows `input` from the current state, inserting a transition to a
    /// fresh state where there is none.
    pub open spec fn push_byte(self, input: u8) -> Option<BuilderModel> {
        let key = (self.sid, input);
        if self.dfa.transitions.contains_key(key) {
            Some(BuilderModel { sid: self.dfa.transitions[key].0, prev_trans: Some(key), ..self })
        } else {
            match self.dfa.insert_state() {
                None => None,
                Some((d, next)) => Some(
                    BuilderModel {
                        dfa: d.insert_transition(self.sid, next, input, Action::NoOp),
                        sid: next,
                        prev_trans: Some(key),
                    },
                ),
            }
        }
    }

    /// Follows the first `n` bytes of `input`.
    pub open spec fn push_prefix(self, input: Seq<u8>, n: nat) -> Option<BuilderModel>
        decreases n,
    {
        if n == 0 {
            Some(self)
        } else {
            match self.push_prefix(input, (n - 1) as nat) {
                None => None,
                Some(b) => b.push_byte(input[n - 1]),
            }
        }
    }

    /// Appends `input` to the pattern; `None` where the current state is no
    /// state of the DFA or the state ids run out.
    pub open spec fn push(self, input: Seq<u8>) -> Option<BuilderModel> {
        if self.dfa.states.contains(self.sid) {
            self.push_prefix(input, input.len())
        } else {
            None
        }
    }

    /// Captures the value that follows the pattern, with the last
    /// transition; `None` where the pattern is empty or the capture ids run
    /// out.
    pub open spec fn capture_field_value(self) -> Option<BuilderModel> {
        match self.prev_trans {
            None => None,
            Some(key) => match self.dfa.insert_new_capture_start() {
                None => None,
                Some((d, cid)) => Some(
                    BuilderModel {
                        dfa: if d.transitions.contains_key(key) {
                            d.insert_transition(
                                key.0,
                                d.transitions[key].0,
                                key.1,
                                Action::CaptureFieldValue(cid),
                            )
                        } else {
                            d
                        },
                        ..self
                    },
                ),
            },
        }
    }
}

/// Builds a single pattern into a [`Dfa`]. The builder holds the DFA until
/// [`DfaBuilder::finish`] hands it back.
pub struct DfaBuilder {
    dfa: Dfa,
    /// The current state id
    sid: u16,
    /// The last transition, by source state and input
    prev_trans: Option<(u16, u8)>,
}

impl View for DfaBuilder {
    type V = BuilderModel;

    closed spec fn view(&self) -> BuilderModel {
        BuilderModel { dfa: self.dfa@, sid: self.sid, prev_trans: self.prev_trans }
    }
}

proof fn lemma_push_prefix_prefix(b: BuilderModel, s: Seq<u8>, k: nat, n: nat)
    requires
        k <= n,
        b.push_prefix(s, n) is Some,
    ensures
        b.push_prefix(s, k) is Some,
    decreases n - k,
{
    if k < n {
        lemma_push_prefix_prefix(b, s, k + 1, n);
    }
}

impl Dfa {
    /// Starts a new pattern, anchored at the state `from`.
    pub fn start_pattern(self, from: u16) -> (b: DfaBuilder)
        requires
            self.wf(),
        ensures
            b.wf(),
            b@ == (BuilderModel { dfa: self@, sid: from, prev_trans: None }),
    {
        DfaBuilder { dfa: self, sid: from, prev_trans: None }
    }
}

impl DfaBuilder {
    /// The DFA is well formed.
    pub closed spec fn wf(&self) -> bool {
        self.dfa.wf()
    }

    /// Hands back the DFA.
    pub fn finish(self) -> (dfa: Dfa)
        requires
            self.wf(),
        ensures
            dfa.wf(),
            dfa@ == self@.dfa,
    {
        self.dfa
    }

    /// Appends `input` to the pattern, one transition per byte.
    pub fn push(&mut self, input: &[u8]) -> (r: &mut Self)
        requires
            old(self).wf(),
            old(self)@.push(input@) is Some,
        ensures
            r.wf(),
            r@ == old(self)@.push(input@)->0,
            *final(self) == *final(r),
    {
        let sid = self.sid;
        self.sid = self.push_from(sid, input);
        self
    }

    /// Appends `input` starting at `sid` and returns the state it ends in,
    /// reusing the transitions another pattern already inserted.
    fn push_from(&mut self, sid: u16, input: &[u8]) -> (end: u16)
        requires
            old(self).wf(),
            (BuilderModel { sid, ..old(self)@ }).push(input@) is Some,
        ensures
            final(self).wf(),
            (BuilderModel { sid: end, ..final(self)@ }) == (BuilderModel { sid, ..old(self)@ }).push(
                input@,
            )->0,
            final(self).sid == old(self).sid,
    {
        let ghost b0 = BuilderModel { sid, ..self@ };
        let present = self.dfa.states.contains(&sid);
        assert(present);
        let mut cur = sid;
        let n = input.len();
        let mut k: usize = 0;
        while k < n
            invariant
                n == input@.len(),
                k <= n,
                self.wf(),
                self.sid == old(self).sid,
                b0.push_prefix(input@, n as nat) is Some,
                b0.push_prefix(input@, k as nat) == Some(BuilderModel { sid: cur, ..self@ }),
            decreases n - k,
        {
            proof {
                lemma_push_prefix_prefix(b0, input@, (k + 1) as nat, n as nat);
            }
            let c = input[k];
            self.prev_trans = Some((cur, c));
            match self.dfa.transition_index(cur, c) {
                Some(i) => {
                    cur = self.dfa.transitions[i].1.0;
                },
                None => {
                    let next = self.dfa.insert_state();
                    self.dfa.insert_transition(cur, next, c, Action::NoOp);
                    cur = next;
                },
            }
            k = k + 1;
        }
        cur
    }

    /// Captures the value of the field the pattern matches.
    pub fn capture_field_value(&mut self) -> (r: &mut Self)
        requires
            old(self).wf(),
            old(self)@.capture_field_value() is Some,
        ensures
            r.wf(),
            r@ == old(self)@.capture_field_value()->0,
            *final(self) == *final(r),
    {
        let prev = self.prev_trans.unwrap();
        let cid = self.dfa.insert_new_capture_start();
        match self.dfa.transition_index(prev.0, prev.1) {
            Some(i) => {
                let to = self.dfa.transitions[i].1.0;
                self.dfa.insert_transition(prev.0, to, prev.1, Action::CaptureFieldValue(cid));
            },
            None => {},
        }
        self
    }
}

impl Dfa {
    /// The least bound that the states and the search start of the DFA lie
    /// below (or, for the search start, at).
    pub fn state_bound(&self) -> (bound: u32)
        requires
            self.wf(),
        ensures
            super::laws::bounded_by(self@, bound as int),
            bound <= 0x10000,
            forall|b: int| super::laws::bounded_by(self@, b) ==> bound <= b,
    {
        let states = self.iter_states();
        let mut bound: u32 = self.sid as u32;
        let mut i: usize = 0;
        while i < states.len()
            invariant
                i <= states@.len(),
                states@.to_set() == self@.states,
                self.sid <= bound <= 0x10000,
                forall|j: int| 0 <= j < i ==> states@[j] < bound,
                bound == self.sid || exists|j: int| 0 <= j < i && states@[j] + 1 == bound,
            decreases states@.len() - i,
        {
            let s = states[i] as u32;
            if s + 1 > bound {
                bound = s + 1;
            }
            i = i + 1;
        }
        proof {
            assert forall|s: u16| #[trigger] self@.states.contains(s) implies s < bound by {
                assert(states@.to_set().contains(s));
                let j = choose|j: int| 0 <= j < states@.len() && states@[j] == s;
            }
            assert forall|b: int| super::laws::bounded_by(self@, b) implies bound <= b by {
                if bound != self.sid {
                    let j = choose|j: int| 0 <= j < states@.len() && states@[j] + 1 == bound;
                    assert(states@.contains(states@[j]));
                    assert(self@.states.contains(states@[j]));
                }
            }
        }
        bound
    }

    /// The next free capture id.
    pub fn next_capture_id(&self) -> (cid: u8)
        ensures
            cid == self@.cid,
    {
        self.cid
    }

    /// Whether `s` is a state of the DFA.
    pub fn has_state(&self, s: u16) -> (r: bool)
        ensures
            r == self@.states.contains(s),
    {
        self.states.contains(&s)
    }
}

impl Dfa {
    /// Returns the states of the DFA, each once.
    pub fn iter_states(&self) -> (states: Vec<u16>)
        requires
            self.wf(),
        ensures
            states@.to_set() == self@.states,
            states@.no_duplicates(),
    {
        let ghost keys = vstd::std_specs::hash::spec_hash_keys_iter(&self.states).remaining();
        let mut states: Vec<u16> = Vec::new();
        for s in it: self.states.iter()
            invariant
                it.seq() == keys,
                states@.len() == it.index(),
                forall|j: int| 0 <= j < it.index() ==> states@[j] == *keys[j],
        {
            states.push(*s);
        }
        assert(states@.len() == keys.len());
        assert(states@ =~= keys.unref());
        states
    }
}

} // verus!
