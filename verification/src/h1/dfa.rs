//! The DFA that HTTP/1.x patterns are compiled into.
//!
//! Patterns are matched case-insensitively: every transition on an ASCII
//! letter is inserted for both of its cases. States are shared between
//! patterns, so a transition, once inserted, is never changed; an attempt to
//! point it elsewhere is a configuration error.
use vstd::prelude::*;
use vstd::string::StrSliceExecFns;
use crate::assoc::{assoc_map, keys_unique};
use std::collections::HashMap;
use super::{Action, CaptureId, MatchId, StateId};

verus! {

/// The input that stands for any character.
pub const ANY_INPUT: char = '*';

/// The lower case of an ASCII letter; any other character is its own.
pub open spec fn ascii_lower(c: char) -> char {
    if 'A' <= c <= 'Z' {
        ((c as u32) + 32) as char
    } else {
        c
    }
}

/// The upper case of an ASCII letter; any other character is its own.
pub open spec fn ascii_upper(c: char) -> char {
    if 'a' <= c <= 'z' {
        ((c as u32) - 32) as char
    } else {
        c
    }
}

/// Whether two characters are equal but for the case of ASCII letters.
pub open spec fn eq_ignore_ascii_case(a: char, b: char) -> bool {
    ascii_lower(a) == ascii_lower(b)
}

fn to_ascii_lower(c: char) -> (r: char)
    ensures
        r == ascii_lower(c),
{
    if 'A' <= c && c <= 'Z' {
        ((c as u8) + 32) as char
    } else {
        c
    }
}

fn to_ascii_upper(c: char) -> (r: char)
    ensures
        r == ascii_upper(c),
{
    if 'a' <= c && c <= 'z' {
        ((c as u8) - 32) as char
    } else {
        c
    }
}

} // verus!

verus! {

/// The first id from `n` on that is neither of the two reserved ones.
pub open spec fn skip_reserved(n: int, init: StateId, any: StateId) -> int {
    if n != init.0 && n != any.0 {
        n
    } else if n + 1 != init.0 && n + 1 != any.0 {
        n + 1
    } else {
        n + 2
    }
}

/// What a [`Dfa`] holds.
pub struct DfaModel {
    /// The number of capture ids handed out.
    pub num_captures: u16,
    /// The number of match ids handed out.
    pub num_matches: u16,
    /// The ids below this one are states (with the two reserved ones).
    pub num_states: u16,
    /// The state a message is parsed from.
    pub init: StateId,
    /// The state that input matching no pattern leads back to.
    pub any: StateId,
    /// The transitions, by source state and input.
    pub edges: Map<(StateId, char), StateId>,
    /// The action carried by each state that has one.
    pub actions: Map<StateId, Action>,
}

/// Follows `s` through `edges` from `from`; `None` where a transition is missing.
pub open spec fn run(edges: Map<(StateId, char), StateId>, from: StateId, s: Seq<char>) -> Option<
    StateId,
>
    decreases s.len(),
{
    if s.len() == 0 {
        Some(from)
    } else {
        match run(edges, from, s.drop_last()) {
            None => None,
            Some(q) => if edges.contains_key((q, s.last())) {
                Some(edges[(q, s.last())])
            } else {
                None
            },
        }
    }
}

/// Where a character of an optional string leads: the last one back to the
/// state the string started from.
pub open spec fn optional_target(optional: Seq<char>, k: int, start: StateId) -> Option<StateId> {
    if k == optional.len() - 1 {
        Some(start)
    } else {
        None
    }
}

impl DfaModel {
    /// The DFA without transitions, actions or ids handed out.
    pub open spec fn empty(init: StateId, any: StateId, num_states: u16) -> DfaModel {
        DfaModel {
            num_captures: 0,
            num_matches: 0,
            num_states,
            init,
            any,
            edges: Map::empty(),
            actions: Map::empty(),
        }
    }

    /// Whether `s` is a state of the DFA.
    pub open spec fn has_state(self, s: StateId) -> bool {
        s.0 < self.num_states || s == self.init || s == self.any
    }

    /// Allocates a fresh state; `None` where the ids run out.
    pub open spec fn new_state(self) -> Option<(DfaModel, StateId)> {
        let id = skip_reserved(self.num_states as int, self.init, self.any);
        if id < u16::MAX {
            Some((DfaModel { num_states: (id + 1) as u16, ..self }, StateId(id as u16)))
        } else {
            None
        }
    }

    /// Hands out a fresh capture id; `None` where the ids run out.
    pub open spec fn new_capture(self) -> Option<(DfaModel, CaptureId)> {
        if self.num_captures < u16::MAX {
            Some(
                (
                    DfaModel { num_captures: (self.num_captures + 1) as u16, ..self },
                    CaptureId(self.num_captures),
                ),
            )
        } else {
            None
        }
    }

    /// Hands out a fresh match id; `None` where the ids run out.
    pub open spec fn new_match(self) -> Option<(DfaModel, MatchId)> {
        if self.num_matches < u16::MAX {
            Some(
                (
                    DfaModel { num_matches: (self.num_matches + 1) as u16, ..self },
                    MatchId(self.num_matches),
                ),
            )
        } else {
            None
        }
    }

    /// The state `input` leads to from `from`, allocating one if there is no
    /// such transition yet (without inserting it).
    pub open spec fn next_state(self, from: StateId, input: char) -> Option<(DfaModel, StateId)> {
        if self.edges.contains_key((from, input)) {
            Some((self, self.edges[(from, input)]))
        } else {
            self.new_state()
        }
    }

    /// Inserts a transition; `None` where the same state and input already
    /// lead elsewhere.
    pub open spec fn insert_edge(self, from: StateId, input: char, to: StateId) -> Option<DfaModel> {
        if self.edges.contains_key((from, input)) {
            if self.edges[(from, input)] == to {
                Some(self)
            } else {
                None
            }
        } else {
            Some(DfaModel { edges: self.edges.insert((from, input), to), ..self })
        }
    }

    /// Adds an action to a state; `None` where it conflicts with the action
    /// the state carries.
    pub open spec fn add_action(self, state: StateId, action: Action) -> Option<DfaModel> {
        if self.actions.contains_key(state) {
            match self.actions[state].combine(action) {
                Some(a) => Some(DfaModel { actions: self.actions.insert(state, a), ..self }),
                None => None,
            }
        } else {
            Some(DfaModel { actions: self.actions.insert(state, action), ..self })
        }
    }

    /// Inserts the transitions on both cases of `input` from `from`, to `to`
    /// or, if that is `None`, to the state `input` already leads to or a
    /// fresh one. The state `input` leads to is looked up (and allocated) in
    /// any case.
    pub open spec fn push_edge_case_insensitive(self, from: StateId, input: char, to: Option<StateId>) -> Option<(DfaModel, StateId)> {
        match self.next_state(from, input) {
            None => None,
            Some((d1, next)) => {
                let target = match to {
                    Some(t) => t,
                    None => next,
                };
                let lc = ascii_lower(input);
                let uc = ascii_upper(input);
                match d1.insert_edge(from, lc, target) {
                    None => None,
                    Some(d2) => if uc != lc {
                        match d2.insert_edge(from, uc, target) {
                            None => None,
                            Some(d3) => Some((d3, target)),
                        }
                    } else {
                        Some((d2, target))
                    },
                }
            },
        }
    }

    /// Inserts the first `n` characters of `optional` from `start`, as
    /// [`DfaBuilder`] does for an optional string, and returns the state they
    /// lead to.
    pub open spec fn walk_optional(self, start: StateId, optional: Seq<char>, n: nat) -> Option<(DfaModel, StateId)>
        decreases n,
    {
        if n == 0 {
            Some((self, start))
        } else {
            match self.walk_optional(start, optional, (n - 1) as nat) {
                None => None,
                Some((d, from)) => d.push_edge_case_insensitive(
                    from,
                    optional[n - 1],
                    optional_target(optional, n - 1, start),
                ),
            }
        }
    }

    /// Inserts the optional strings `prefixes` from `start`, the last one first.
    pub open spec fn insert_optionals(self, start: StateId, prefixes: Seq<Seq<char>>) -> Option<DfaModel>
        decreases prefixes.len(),
    {
        if prefixes.len() == 0 {
            Some(self)
        } else {
            match self.walk_optional(start, prefixes.last(), prefixes.last().len()) {
                None => None,
                Some((d, _)) => d.insert_optionals(start, prefixes.drop_last()),
            }
        }
    }

    /// Follows the first `n` characters of `s` from `from`, allocating a
    /// state wherever a transition is missing, without inserting any.
    pub open spec fn walk_states(self, from: StateId, s: Seq<char>, n: nat) -> Option<(DfaModel, StateId)>
        decreases n,
    {
        if n == 0 {
            Some((self, from))
        } else {
            match self.walk_states(from, s, (n - 1) as nat) {
                None => None,
                Some((d, q)) => d.next_state(q, s[n - 1]),
            }
        }
    }
}

/// The DFA the patterns of a parser are compiled into.
pub struct Dfa {
    num_captures: u16,
    num_matches: u16,
    num_states: u16,
    init: StateId,
    any: StateId,
    edges: Vec<((StateId, char), StateId)>,
    actions: HashMap<u16, Action>,
}

impl View for Dfa {
    type V = DfaModel;

    closed spec fn view(&self) -> DfaModel {
        DfaModel {
            num_captures: self.num_captures,
            num_matches: self.num_matches,
            num_states: self.num_states,
            init: self.init,
            any: self.any,
            edges: assoc_map(self.edges@),
            actions: by_state(self.actions@),
        }
    }
}

impl Dfa {
    /// The tables hold no key twice.
    pub closed spec fn wf(&self) -> bool {
        keys_unique(self.edges@)
    }

    /// Creates a DFA without patterns, whose reserved states are 0 (where
    /// messages are parsed from) and 1 (where unmatched input leads back to).
    pub fn new() -> (dfa: Dfa)
        ensures
            dfa.wf(),
            dfa@ == DfaModel::empty(StateId(0), StateId(1), 2),
    {
        let dfa = Dfa {
            num_captures: 0,
            num_matches: 0,
            num_states: 2,
            init: StateId(0),
            any: StateId(1),
            edges: Vec::new(),
            actions: HashMap::new(),
        };
        proof {
            assert(dfa@.edges =~= Map::empty());
            assert(dfa@.actions =~= Map::empty());
        }
        dfa
    }

    /// A copy of the DFA.
    pub fn duplicate(&self) -> (d: Dfa)
        ensures
            d.wf() == self.wf(),
            d@ == self@,
    {
        let mut edges: Vec<((StateId, char), StateId)> = Vec::new();
        let mut i: usize = 0;
        while i < self.edges.len()
            invariant
                i <= self.edges@.len(),
                edges@ == self.edges@.take(i as int),
            decreases self.edges@.len() - i,
        {
            edges.push(self.edges[i]);
            i = i + 1;
            assert(edges@ =~= self.edges@.take(i as int));
        }
        assert(self.edges@.take(self.edges@.len() as int) =~= self.edges@);
        let actions = self.actions.clone();
        Dfa {
            num_captures: self.num_captures,
            num_matches: self.num_matches,
            num_states: self.num_states,
            init: self.init,
            any: self.any,
            edges,
            actions,
        }
    }

    /// Creates a DFA without patterns whose reserved states are `init` and
    /// `any`; the states it allocates skip them.
    pub fn with_reserved(init: u16, any: u16) -> (dfa: Dfa)
        ensures
            dfa.wf(),
            dfa@ == DfaModel::empty(StateId(init), StateId(any), 0),
    {
        let dfa = Dfa {
            num_captures: 0,
            num_matches: 0,
            num_states: 0,
            init: StateId(init),
            any: StateId(any),
            edges: Vec::new(),
            actions: HashMap::new(),
        };
        proof {
            assert(dfa@.edges =~= Map::empty());
            assert(dfa@.actions =~= Map::empty());
        }
        dfa
    }

    fn new_state(&mut self) -> (id: StateId)
        requires
            old(self).wf(),
            old(self)@.new_state() is Some,
        ensures
            final(self).wf(),
            (final(self)@, id) == old(self)@.new_state()->0,
    {
        let mut id = self.num_states;
        if id == self.init.0 || id == self.any.0 {
            id = id + 1;
            if id == self.init.0 || id == self.any.0 {
                id = id + 1;
            }
        }
        self.num_states = id + 1;
        StateId(id)
    }

    fn new_capture(&mut self) -> (id: CaptureId)
        requires
            old(self).wf(),
            old(self)@.new_capture() is Some,
        ensures
            final(self).wf(),
            (final(self)@, id) == old(self)@.new_capture()->0,
    {
        let id = CaptureId(self.num_captures);
        self.num_captures = self.num_captures + 1;
        id
    }

    fn new_match(&mut self) -> (id: MatchId)
        requires
            old(self).wf(),
            old(self)@.new_match() is Some,
        ensures
            final(self).wf(),
            (final(self)@, id) == old(self)@.new_match()->0,
    {
        let id = MatchId(self.num_matches);
        self.num_matches = self.num_matches + 1;
        id
    }

    /// The transition on `input` from `from`, if there is one.
    fn edge(&self, from: StateId, input: char) -> (to: Option<StateId>)
        requires
            self.wf(),
        ensures
            to == (if self@.edges.contains_key((from, input)) {
                Some(self@.edges[(from, input)])
            } else {
                None
            }),
    {
        let mut i: usize = 0;
        while i < self.edges.len()
            invariant
                i <= self.edges@.len(),
                self.wf(),
                forall|j: int| 0 <= j < i ==> self.edges@[j].0 != (from, input),
            decreases self.edges@.len() - i,
        {
            let (key, to) = self.edges[i];
            if key.0 == from && key.1 == input {
                proof {
                    crate::assoc::lemma_assoc_map_index(self.edges@, i as int);
                }
                return Some(to);
            }
            i = i + 1;
        }
        proof {
            crate::assoc::lemma_assoc_map_absent(self.edges@, (from, input));
        }
        None
    }

    fn next_state(&mut self, from: StateId, input: char) -> (to: StateId)
        requires
            old(self).wf(),
            old(self)@.next_state(from, input) is Some,
        ensures
            final(self).wf(),
            (final(self)@, to) == old(self)@.next_state(from, input)->0,
    {
        match self.edge(from, input) {
            Some(to) => to,
            None => self.new_state(),
        }
    }

    fn insert_edge(&mut self, from: StateId, input: char, to: StateId)
        requires
            old(self).wf(),
            old(self)@.insert_edge(from, input, to) is Some,
        ensures
            final(self).wf(),
            final(self)@ == old(self)@.insert_edge(from, input, to)->0,
    {
        match self.edge(from, input) {
            Some(_) => {},
            None => {
                proof {
                    crate::assoc::lemma_assoc_map_push(self.edges@, (from, input), to);
                    assert forall|j: int| 0 <= j < self.edges@.len() implies self.edges@[j].0 != (from, input) by {
                        crate::assoc::lemma_assoc_map_index(self.edges@, j);
                    }
                }
                self.edges.push(((from, input), to));
            },
        }
    }

    /// Whether a fresh state can be allocated.
    fn can_new_state(&self) -> (b: bool)
        ensures
            b == self@.new_state() is Some,
    {
        let init: u32 = self.init.0 as u32;
        let any: u32 = self.any.0 as u32;
        let mut id: u32 = self.num_states as u32;
        if id == init || id == any {
            id = id + 1;
            if id == init || id == any {
                id = id + 1;
            }
        }
        id < 0xffff
    }

    /// Whether the state `input` leads to from `from` can be looked up.
    fn can_next_state(&self, from: StateId, input: char) -> (b: bool)
        requires
            self.wf(),
        ensures
            b == self@.next_state(from, input) is Some,
    {
        match self.edge(from, input) {
            Some(_) => true,
            None => self.can_new_state(),
        }
    }

    /// Whether the transition can be inserted without redirecting one.
    fn can_insert_edge(&self, from: StateId, input: char, to: StateId) -> (b: bool)
        requires
            self.wf(),
        ensures
            b == self@.insert_edge(from, input, to) is Some,
    {
        match self.edge(from, input) {
            Some(t) => t == to,
            None => true,
        }
    }

    /// The action `state` carries, if any.
    fn action_of(&self, state: StateId) -> (a: Option<Action>)
        ensures
            a == self@.action_of(state),
    {
        match self.actions.get(&state.0) {
            Some(a) => Some(*a),
            None => None,
        }
    }

    /// Whether `action` can be added to `state` without a conflict.
    fn can_add_action(&self, state: StateId, action: Action) -> (b: bool)
        ensures
            b == self@.add_action(state, action) is Some,
    {
        match self.action_of(state) {
            Some(existing) => existing.push(action).is_ok(),
            None => true,
        }
    }

    fn add_action(&mut self, state: StateId, action: Action)
        requires
            old(self).wf(),
            old(self)@.add_action(state, action) is Some,
        ensures
            final(self).wf(),
            final(self)@ == old(self)@.add_action(state, action)->0,
    {
        let ghost before = self@.actions;
        let a = match self.action_of(state) {
            Some(existing) => match existing.push(action) {
                Ok(combined) => combined,
                Err(_) => action,
            },
            None => action,
        };
        self.actions.insert(state.0, a);
        proof {
            assert forall|s: StateId| #![auto] s.0 == state.0 <==> s == state by {
                if s.0 == state.0 {
                    assert(s == StateId(s.0));
                    assert(state == StateId(state.0));
                }
            }
            assert(self@.actions =~= before.insert(state, a));
        }
    }
}

/// The actions of a table keyed by state id, as a map over states.
pub open spec fn by_state(m: Map<u16, Action>) -> Map<StateId, Action> {
    Map::new(|s: StateId| m.contains_key(s.0), |s: StateId| m[s.0])
}

/// A bound of the range of lengths [`DfaBuilder::push_any`] accepts.
#[derive(Clone, Copy, Debug, PartialEq, Eq, Structural)]
pub enum RangeBound {
    Included(usize),
    Excluded(usize),
    Unbounded,
}

/// The least number of characters a range starting at `start` admits.
pub open spec fn range_min_len(start: RangeBound) -> int {
    match start {
        RangeBound::Excluded(n) => n + 1,
        RangeBound::Included(n) => n as int,
        RangeBound::Unbounded => 0,
    }
}

/// The greatest number of characters a range ending at `end` admits, where
/// an unbounded end stands for the least number `min` (the characters past
/// it are matched by a loop).
pub open spec fn range_max_len(end: RangeBound, min: int) -> int {
    match end {
        RangeBound::Excluded(n) => n - 1,
        RangeBound::Included(n) => n as int,
        RangeBound::Unbounded => min,
    }
}

/// The string of `n` [`ANY_INPUT`] characters.
pub open spec fn any_string(n: nat) -> Seq<char> {
    Seq::new(n, |j: int| ANY_INPUT)
}

/// The optional strings [`DfaBuilder::push_any`] adds when lengths from
/// `min` to `max` are allowed: the strings of 1 up to `max - min`
/// [`ANY_INPUT`] characters.
pub open spec fn any_prefixes(min: int, max: int) -> Seq<Seq<char>> {
    Seq::new(
        (if max > min {
            max - min
        } else {
            0
        }) as nat,
        |i: int| any_string((i + 1) as nat),
    )
}

/// What a [`DfaBuilder`] holds.
pub struct BuilderModel {
    /// The DFA the pattern is compiled into.
    pub dfa: DfaModel,
    /// The state the pattern has reached.
    pub state: StateId,
    /// The optional strings that may precede the next input.
    pub optional_prefixes: Seq<Seq<char>>,
    /// The capture that starts with the next input.
    pub start_capture: Option<CaptureId>,
    /// The capture that is open.
    pub end_capture: Option<CaptureId>,
}

impl BuilderModel {
    /// The builder that starts a pattern from `state`.
    pub open spec fn start(dfa: DfaModel, state: StateId) -> BuilderModel {
        BuilderModel {
            dfa,
            state,
            optional_prefixes: Seq::empty(),
            start_capture: None,
            end_capture: None,
        }
    }

    /// Appends one character, leading to `to` or, if that is `None`, to
    /// the state it already leads to or a fresh one. The pending optional
    /// strings are inserted first, looping back to the current state, and a
    /// pending capture starts at the current state.
    pub open spec fn push_edge(self, input: char, to: Option<StateId>) -> Option<BuilderModel> {
        let start = self.state;
        match self.dfa.insert_optionals(start, self.optional_prefixes) {
            None => None,
            Some(d1) => {
                let captured = match self.start_capture {
                    Some(id) => match d1.add_action(start, Action::StartCapture(id)) {
                        None => None,
                        Some(d2) => Some((d2, Some(id))),
                    },
                    None => Some((d1, self.end_capture)),
                };
                match captured {
                    None => None,
                    Some((d2, end_capture)) => match d2.push_edge_case_insensitive(
                        start,
                        input,
                        to,
                    ) {
                        None => None,
                        Some((d3, next)) => Some(
                            BuilderModel {
                                dfa: d3,
                                state: next,
                                optional_prefixes: Seq::empty(),
                                start_capture: None,
                                end_capture,
                            },
                        ),
                    },
                }
            },
        }
    }

    /// Appends the first `n` characters of `s`.
    pub open spec fn push_prefix(self, s: Seq<char>, n: nat) -> Option<BuilderModel>
        decreases n,
    {
        if n == 0 {
            Some(self)
        } else {
            match self.push_prefix(s, (n - 1) as nat) {
                None => None,
                Some(b) => b.push_edge(s[n - 1], None),
            }
        }
    }

    /// Appends `s`.
    pub open spec fn push(self, s: Seq<char>) -> Option<BuilderModel> {
        self.push_prefix(s, s.len())
    }

    /// Appends `input` `n` times.
    pub open spec fn push_repeat(self, input: char, n: nat) -> Option<BuilderModel>
        decreases n,
    {
        if n == 0 {
            Some(self)
        } else {
            match self.push_repeat(input, (n - 1) as nat) {
                None => None,
                Some(b) => b.push_edge(input, None),
            }
        }
    }

    /// Appends any characters, as many as the range from `start` to `end`
    /// admits: the least number of them is required, the strings of up to
    /// as many more as the range allows become optional, and an unbounded
    /// range loops on [`ANY_INPUT`]. `None` where the range is empty, where
    /// its least number exceeds `usize::MAX`, or on the failures of the
    /// insertions.
    pub open spec fn push_any(self, start: RangeBound, end: RangeBound) -> Option<BuilderModel> {
        let min = range_min_len(start);
        let max = range_max_len(end, min);
        if max < min || min > usize::MAX {
            None
        } else {
            match self.push_repeat(ANY_INPUT, min as nat) {
                None => None,
                Some(b1) => {
                    let b2 = BuilderModel {
                        optional_prefixes: b1.optional_prefixes + any_prefixes(min, max),
                        ..b1
                    };
                    if end is Unbounded {
                        match b2.dfa.push_edge_case_insensitive(
                            b2.state,
                            ANY_INPUT,
                            Some(b2.state),
                        ) {
                            None => None,
                            Some((d, _)) => Some(BuilderModel { dfa: d, ..b2 }),
                        }
                    } else {
                        Some(b2)
                    }
                },
            }
        }
    }

    /// Makes `s` an optional string before the next input.
    pub open spec fn push_optional(self, s: Seq<char>) -> BuilderModel {
        BuilderModel { optional_prefixes: self.optional_prefixes.push(s), ..self }
    }

    /// Starts a capture with the next input; `None` where one is pending
    /// already or the capture ids run out.
    pub open spec fn start_capturing(self) -> Option<BuilderModel> {
        if self.start_capture is Some {
            None
        } else {
            match self.dfa.new_capture() {
                None => None,
                Some((d, cid)) => Some(BuilderModel { dfa: d, start_capture: Some(cid), ..self }),
            }
        }
    }

    /// Ends the open capture at the current state, under a fresh match id;
    /// `None` where no capture is open, the match ids run out or the state
    /// carries a conflicting action.
    pub open spec fn end_capturing(self) -> Option<BuilderModel> {
        match self.end_capture {
            None => None,
            Some(cid) => match self.dfa.new_match() {
                None => None,
                Some((d1, mid)) => match d1.add_action(
                    self.state,
                    Action::EndCapture(cid, mid),
                ) {
                    None => None,
                    Some(d2) => Some(BuilderModel { dfa: d2, end_capture: None, ..self }),
                },
            },
        }
    }

    /// Appends the first `n` characters of `s`, the last one of which leads
    /// to `fin`.
    pub open spec fn push_restart(self, s: Seq<char>, fin: StateId, n: nat) -> Option<BuilderModel>
        decreases n,
    {
        if n == 0 {
            Some(self)
        } else {
            match self.push_restart(s, fin, (n - 1) as nat) {
                None => None,
                Some(b) => b.push_edge(s[n - 1], optional_target(s, n - 1, fin)),
            }
        }
    }

    /// Appends `s`, leading to the state that `s` leads to from the state
    /// unmatched input leads back to.
    pub open spec fn restart_with(self, s: Seq<char>) -> Option<BuilderModel> {
        match self.dfa.walk_states(self.dfa.any, s, s.len()) {
            None => None,
            Some((d, fin)) => BuilderModel { dfa: d, ..self }.push_restart(s, fin, s.len()),
        }
    }

    /// Appends the characters of `s` from the `k`th up to the `n`th
    /// (excluded); the last character of `s` leads to `fin` if that is given.
    pub open spec fn push_between(self, s: Seq<char>, k: nat, n: nat, fin: Option<StateId>) -> Option<
        BuilderModel,
    >
        decreases n,
    {
        if n <= k {
            Some(self)
        } else {
            match self.push_between(s, k, (n - 1) as nat, fin) {
                None => None,
                Some(b) => b.push_edge(
                    s[n - 1],
                    if n - 1 == s.len() - 1 {
                        fin
                    } else {
                        None
                    },
                ),
            }
        }
    }

    /// Appends the first character of `s`, ends the open capture at the
    /// state it leads to, and appends the rest of `s`; `None` for an empty
    /// `s`.
    pub open spec fn end_capturing_with(self, s: Seq<char>) -> Option<BuilderModel> {
        if s.len() == 0 {
            None
        } else {
            match self.push_between(s, 0, 1, None) {
                None => None,
                Some(b1) => match b1.end_capturing() {
                    None => None,
                    Some(b2) => b2.push_between(s, 1, s.len(), None),
                },
            }
        }
    }

    /// As [`BuilderModel::end_capturing_with`], but `s` leads, as in
    /// [`BuilderModel::restart_with`], to the state it leads to from the
    /// state unmatched input leads back to.
    pub open spec fn end_capturing_and_restart_with(self, s: Seq<char>) -> Option<BuilderModel> {
        if s.len() == 0 {
            None
        } else {
            match self.dfa.walk_states(self.dfa.any, s, s.len()) {
                None => None,
                Some((d, fin)) => match (BuilderModel { dfa: d, ..self }).push_between(
                    s,
                    0,
                    1,
                    Some(fin),
                ) {
                    None => None,
                    Some(b1) => match b1.end_capturing() {
                        None => None,
                        Some(b2) => b2.push_between(s, 1, s.len(), Some(fin)),
                    },
                },
            }
        }
    }

    /// Terminates parsing at the current state.
    pub open spec fn done(self) -> Option<BuilderModel> {
        match self.dfa.add_action(self.state, Action::Done) {
            None => None,
            Some(d) => Some(BuilderModel { dfa: d, ..self }),
        }
    }
}

/// The characters of `s`.
pub fn chars_of(s: &str) -> (v: Vec<char>)
    ensures
        v@ == s@,
{
    let n = s.unicode_len();
    let mut v: Vec<char> = Vec::new();
    let mut i: usize = 0;
    while i < n
        invariant
            n == s@.len(),
            i <= n,
            v@ == s@.take(i as int),
        decreases n - i,
    {
        v.push(s.get_char(i));
        i = i + 1;
        assert(v@ =~= s@.take(i as int));
    }
    assert(s@.take(n as int) =~= s@);
    v
}

/// Builds a single pattern into a [`Dfa`]. The builder holds the DFA until
/// [`DfaBuilder::finish`] hands it back.
pub struct DfaBuilder {
    dfa: Dfa,
    state: StateId,
    optional_prefixes: Vec<Vec<char>>,
    start_capture: Option<CaptureId>,
    end_capture: Option<CaptureId>,
}

impl View for DfaBuilder {
    type V = BuilderModel;

    closed spec fn view(&self) -> BuilderModel {
        BuilderModel {
            dfa: self.dfa@,
            state: self.state,
            optional_prefixes: self.optional_prefixes@.map_values(|v: Vec<char>| v@),
            start_capture: self.start_capture,
            end_capture: self.end_capture,
        }
    }
}

impl Dfa {
    /// Starts a pattern, from the state messages are parsed from if
    /// `status_line` holds and from the state unmatched input leads back to
    /// otherwise.
    pub fn start_pattern(self, status_line: bool) -> (b: DfaBuilder)
        requires
            self.wf(),
        ensures
            b.wf(),
            b@ == BuilderModel::start(self@, if status_line { self@.init } else { self@.any }),
    {
        let state = if status_line {
            self.init
        } else {
            self.any
        };
        let b = DfaBuilder {
            dfa: self,
            state,
            optional_prefixes: Vec::new(),
            start_capture: None,
            end_capture: None,
        };
        assert(b@.optional_prefixes =~= Seq::empty());
        b
    }
}

impl DfaBuilder {
    /// The DFA is well formed.
    pub closed spec fn wf(&self) -> bool {
        self.dfa.wf()
    }

    /// Hands back the DFA.
    pub fn finish(self) -> (dfa: Dfa)
        requires
            self.wf(),
        ensures
            dfa.wf(),
            dfa@ == self@.dfa,
    {
        self.dfa
    }

    fn push_edge_case_insensitive(&mut self, from: StateId, input: char, to: Option<StateId>) -> (next: Option<StateId>)
        requires
            old(self).wf(),
        ensures
            final(self).wf(),
            next is Some <==> old(self)@.dfa.push_edge_case_insensitive(from, input, to) is Some,
            next matches Some(n) ==> (final(self)@.dfa, n) == old(self)@.dfa.push_edge_case_insensitive(
                from,
                input,
                to,
            )->0,
            final(self)@ == (BuilderModel { dfa: final(self)@.dfa, ..old(self)@ }),
    {
        if !self.dfa.can_next_state(from, input) {
            return None;
        }
        let next = self.dfa.next_state(from, input);
        let to = match to {
            Some(t) => t,
            None => next,
        };
        let lc = to_ascii_lower(input);
        if !self.dfa.can_insert_edge(from, lc, to) {
            return None;
        }
        self.dfa.insert_edge(from, lc, to);
        let uc = to_ascii_upper(input);
        if uc != lc {
            if !self.dfa.can_insert_edge(from, uc, to) {
                return None;
            }
            self.dfa.insert_edge(from, uc, to);
        }
        Some(to)
    }
}

/// A walk that succeeds succeeds on each of its prefixes.
proof fn lemma_walk_optional_prefix(d: DfaModel, start: StateId, o: Seq<char>, k: nat, n: nat)
    requires
        k <= n,
        d.walk_optional(start, o, n) is Some,
    ensures
        d.walk_optional(start, o, k) is Some,
    decreases n - k,
{
    if k < n {
        lemma_walk_optional_prefix(d, start, o, k + 1, n);
    }
}

impl DfaBuilder {
    /// Inserts `optional` from `start`, as a pending optional string;
    /// `false` where that fails.
    fn insert_optional(&mut self, start: StateId, optional: &Vec<char>) -> (ok: bool)
        requires
            old(self).wf(),
        ensures
            final(self).wf(),
            ok <==> old(self)@.dfa.walk_optional(start, optional@, optional@.len()) is Some,
            ok ==> final(self)@ == (BuilderModel {
                dfa: (old(self)@.dfa.walk_optional(start, optional@, optional@.len())->0).0,
                ..old(self)@
            }),
            final(self)@ == (BuilderModel { dfa: final(self)@.dfa, ..old(self)@ }),
    {
        let ghost d0 = self@.dfa;
        let ghost b0 = self@;
        let n = optional.len();
        let mut from = start;
        let mut k: usize = 0;
        while k < n
            invariant
                n == optional@.len(),
                k <= n,
                self.wf(),
                d0.walk_optional(start, optional@, k as nat) == Some((self@.dfa, from)),
                self@ == (BuilderModel { dfa: self@.dfa, ..b0 }),
                b0 == old(self)@,
                d0 == b0.dfa,
            decreases n - k,
        {
            let c = optional[k];
            let to = if k == n - 1 {
                Some(start)
            } else {
                None
            };
            match self.push_edge_case_insensitive(from, c, to) {
                Some(next) => {
                    from = next;
                },
                None => {
                    proof {
                        if d0.walk_optional(start, optional@, n as nat) is Some {
                            lemma_walk_optional_prefix(d0, start, optional@, (k + 1) as nat, n as nat);
                        }
                    }
                    return false;
                },
            }
            k = k + 1;
        }
        true
    }

    /// Appends one character, as [`BuilderModel::push_edge`] describes;
    /// `false` where that fails.
    fn push_edge(&mut self, input: char, to: Option<StateId>) -> (ok: bool)
        requires
            old(self).wf(),
        ensures
            final(self).wf(),
            ok <==> old(self)@.push_edge(input, to) is Some,
            ok ==> final(self)@ == old(self)@.push_edge(input, to)->0,
    {
        let ghost b0 = self@;
        let start = self.state;
        let ghost target = b0.dfa.insert_optionals(start, b0.optional_prefixes);
        while self.optional_prefixes.len() > 0
            invariant
                self.wf(),
                self.state == start,
                self.start_capture == b0.start_capture,
                self.end_capture == b0.end_capture,
                target == b0.dfa.insert_optionals(start, b0.optional_prefixes),
                self@.dfa.insert_optionals(start, self@.optional_prefixes) == target,
                b0 == old(self)@,
                start == b0.state,
            decreases self.optional_prefixes@.len(),
        {
            let ghost before = self@;
            let optional = self.optional_prefixes.pop().unwrap();
            proof {
                assert(self@.optional_prefixes =~= before.optional_prefixes.drop_last());
                assert(optional@ == before.optional_prefixes.last());
            }
            if !self.insert_optional(start, &optional) {
                assert(before.dfa.insert_optionals(start, before.optional_prefixes) is None);
                return false;
            }
        }
        assert(self@.optional_prefixes =~= Seq::empty());
        if let Some(id) = self.start_capture.take() {
            let state = self.state;
            if !self.dfa.can_add_action(state, Action::StartCapture(id)) {
                return false;
            }
            self.dfa.add_action(state, Action::StartCapture(id));
            self.end_capture = Some(id);
        }
        match self.push_edge_case_insensitive(start, input, to) {
            Some(next) => {
                self.state = next;
                true
            },
            None => false,
        }
    }
}

proof fn lemma_push_prefix_prefix(b: BuilderModel, s: Seq<char>, k: nat, n: nat)
    requires
        k <= n,
        b.push_prefix(s, n) is Some,
    ensures
        b.push_prefix(s, k) is Some,
    decreases n - k,
{
    if k < n {
        lemma_push_prefix_prefix(b, s, k + 1, n);
    }
}

proof fn lemma_push_repeat_prefix(b: BuilderModel, c: char, k: nat, n: nat)
    requires
        k <= n,
        b.push_repeat(c, n) is Some,
    ensures
        b.push_repeat(c, k) is Some,
    decreases n - k,
{
    if k < n {
        lemma_push_repeat_prefix(b, c, k + 1, n);
    }
}

proof fn lemma_push_restart_prefix(b: BuilderModel, s: Seq<char>, fin: StateId, k: nat, n: nat)
    requires
        k <= n,
        b.push_restart(s, fin, n) is Some,
    ensures
        b.push_restart(s, fin, k) is Some,
    decreases n - k,
{
    if k < n {
        lemma_push_restart_prefix(b, s, fin, k + 1, n);
    }
}

proof fn lemma_walk_states_prefix(d: DfaModel, from: StateId, s: Seq<char>, k: nat, n: nat)
    requires
        k <= n,
        d.walk_states(from, s, n) is Some,
    ensures
        d.walk_states(from, s, k) is Some,
    decreases n - k,
{
    if k < n {
        lemma_walk_states_prefix(d, from, s, k + 1, n);
    }
}

impl DfaBuilder {
    /// Appends `input` to the pattern, one transition per character, matched
    /// regardless of the case of ASCII letters.
    pub fn push(&mut self, input: &str) -> (r: &mut Self)
        requires
            old(self).wf(),
            old(self)@.push(input@) is Some,
        ensures
            r.wf(),
            r@ == old(self)@.push(input@)->0,
            *final(self) == *final(r),
    {
        self.try_push(input);
        self
    }

    /// Pushes the [`ANY_INPUT`] character onto the pattern, as many times as
    /// the range from `start` to `end` admits: the least number of times
    /// outright, and the strings of up to as many more as the range allows
    /// as optional strings before the next input. An unbounded range loops
    /// on [`ANY_INPUT`].
    pub fn push_any(&mut self, start: RangeBound, end: RangeBound) -> (r: &mut Self)
        requires
            old(self).wf(),
            old(self)@.push_any(start, end) is Some,
        ensures
            r.wf(),
            r@ == old(self)@.push_any(start, end)->0,
            *final(self) == *final(r),
    {
        let ghost b0 = self@;
        let min_len: usize = match start {
            RangeBound::Excluded(n) => n + 1,
            RangeBound::Included(n) => n,
            RangeBound::Unbounded => 0,
        };
        let max_len: usize = match end {
            RangeBound::Excluded(n) => n - 1,
            RangeBound::Included(n) => n,
            RangeBound::Unbounded => min_len,
        };
        let mut k: usize = 0;
        while k < min_len
            invariant
                k <= min_len,
                min_len == range_min_len(start),
                max_len == range_max_len(end, min_len as int),
                max_len >= min_len,
                self.wf(),
                b0.push_repeat(ANY_INPUT, min_len as nat) is Some,
                b0.push_repeat(ANY_INPUT, k as nat) == Some(self@),
            decreases min_len - k,
        {
            proof {
                lemma_push_repeat_prefix(b0, ANY_INPUT, (k + 1) as nat, min_len as nat);
            }
            self.push_edge(ANY_INPUT, None);
            k = k + 1;
        }
        let ghost b1 = self@;
        let ghost prefixes = any_prefixes(min_len as int, max_len as int);
        let width = max_len - min_len;
        let mut i: usize = 0;
        while i < width
            invariant
                i <= width,
                width == max_len - min_len,
                max_len >= min_len,
                prefixes == any_prefixes(min_len as int, max_len as int),
                prefixes.len() == width,
                self.wf(),
                self@ == (BuilderModel {
                    optional_prefixes: b1.optional_prefixes + prefixes.take(i as int),
                    ..b1
                }),
            decreases width - i,
        {
            let mut prefix: Vec<char> = Vec::new();
            let mut j: usize = 0;
            while j <= i
                invariant
                    j <= i + 1,
                    i < width,
                    prefix@ == any_string(j as nat),
                decreases i + 1 - j,
            {
                prefix.push(ANY_INPUT);
                j = j + 1;
                assert(prefix@ =~= any_string(j as nat));
            }
            let ghost before = self@;
            self.optional_prefixes.push(prefix);
            proof {
                assert(prefixes.take(i + 1) =~= prefixes.take(i as int).push(any_string((i + 1) as nat)));
                assert(self@.optional_prefixes =~= before.optional_prefixes.push(any_string((i + 1) as nat)));
                assert(self@.optional_prefixes =~= b1.optional_prefixes + prefixes.take(i + 1));
            }
            i = i + 1;
        }
        assert(prefixes.take(prefixes.len() as int) =~= prefixes);
        assert(self@.optional_prefixes =~= b1.optional_prefixes + prefixes);
        if let RangeBound::Unbounded = end {
            let state = self.state;
            let _ = self.push_edge_case_insensitive(state, ANY_INPUT, Some(state));
        }
        self
    }

    /// Makes `input` an optional string before the next input: it leads from
    /// the state the next input is appended to back to that state.
    pub fn push_optional(&mut self, input: &str) -> (r: &mut Self)
        requires
            old(self).wf(),
        ensures
            r.wf(),
            r@ == old(self)@.push_optional(input@),
            *final(self) == *final(r),
    {
        let ghost b0 = self@;
        let chars = chars_of(input);
        self.optional_prefixes.push(chars);
        assert(self@.optional_prefixes =~= b0.optional_prefixes.push(input@));
        self
    }

    /// Starts capturing with the next input.
    pub fn start_capturing(&mut self) -> (r: &mut Self)
        requires
            old(self).wf(),
            old(self)@.start_capturing() is Some,
        ensures
            r.wf(),
            r@ == old(self)@.start_capturing()->0,
            *final(self) == *final(r),
    {
        self.try_start_capturing();
        self
    }

    /// Ends the open capture at the current state, reporting it under a
    /// fresh match id.
    pub fn end_capturing(&mut self) -> (r: &mut Self)
        requires
            old(self).wf(),
            old(self)@.end_capturing() is Some,
        ensures
            r.wf(),
            r@ == old(self)@.end_capturing()->0,
            *final(self) == *final(r),
    {
        self.try_end_capturing();
        self
    }

    /// Matches the given input string but sets the final state to the state
    /// the DFA would be in if it started from the state unmatched input leads
    /// back to.
    pub fn restart_with(&mut self, input: &str)
        requires
            old(self).wf(),
            old(self)@.restart_with(input@) is Some,
        ensures
            final(self).wf(),
            final(self)@ == old(self)@.restart_with(input@)->0,
    {
        let chars = chars_of(input);
        let n = chars.len();
        let ghost d0 = self@.dfa;
        let ghost b0 = self@;
        let mut final_state = self.dfa.any;
        let mut k: usize = 0;
        while k < n
            invariant
                n == input@.len(),
                chars@ == input@,
                k <= n,
                self.wf(),
                d0.walk_states(d0.any, input@, n as nat) is Some,
                d0.walk_states(d0.any, input@, k as nat) == Some((self@.dfa, final_state)),
                self@ == (BuilderModel { dfa: self@.dfa, ..b0 }),
            decreases n - k,
        {
            proof {
                lemma_walk_states_prefix(d0, d0.any, input@, (k + 1) as nat, n as nat);
            }
            final_state = self.dfa.next_state(final_state, chars[k]);
            k = k + 1;
        }
        let ghost b1 = self@;
        let mut k: usize = 0;
        while k < n
            invariant
                n == input@.len(),
                chars@ == input@,
                k <= n,
                self.wf(),
                b1.push_restart(input@, final_state, n as nat) is Some,
                b1.push_restart(input@, final_state, k as nat) == Some(self@),
            decreases n - k,
        {
            proof {
                lemma_push_restart_prefix(b1, input@, final_state, (k + 1) as nat, n as nat);
            }
            let c = chars[k];
            let to = if k == n - 1 {
                Some(final_state)
            } else {
                None
            };
            self.push_edge(c, to);
            k = k + 1;
        }
    }

    /// Terminates parsing at the current state.
    pub fn done(&mut self)
        requires
            old(self).wf(),
            old(self)@.done() is Some,
        ensures
            final(self).wf(),
            final(self)@ == old(self)@.done()->0,
    {
        self.try_done();
    }

    /// Terminates parsing at the current state; `false` where the state
    /// carries a conflicting action.
    pub(crate) fn try_done(&mut self) -> (ok: bool)
        requires
            old(self).wf(),
        ensures
            final(self).wf(),
            ok <==> old(self)@.done() is Some,
            ok ==> final(self)@ == old(self)@.done()->0,
    {
        let state = self.state;
        if !self.dfa.can_add_action(state, Action::Done) {
            return false;
        }
        self.dfa.add_action(state, Action::Done);
        true
    }
}

proof fn lemma_push_between_prefix(b: BuilderModel, s: Seq<char>, k: nat, i: nat, n: nat, fin: Option<StateId>)
    requires
        k <= i <= n,
        b.push_between(s, k, n, fin) is Some,
    ensures
        b.push_between(s, k, i, fin) is Some,
    decreases n - i,
{
    if i < n {
        lemma_push_between_prefix(b, s, k, i + 1, n, fin);
    }
}

impl DfaBuilder {
    /// Appends `input`, as [`DfaBuilder::push`] does; `false` where that
    /// fails.
    pub(crate) fn try_push(&mut self, input: &str) -> (ok: bool)
        requires
            old(self).wf(),
        ensures
            final(self).wf(),
            ok <==> old(self)@.push(input@) is Some,
            ok ==> final(self)@ == old(self)@.push(input@)->0,
    {
        let chars = chars_of(input);
        let n = chars.len();
        let ghost b0 = self@;
        let mut k: usize = 0;
        while k < n
            invariant
                n == input@.len(),
                chars@ == input@,
                k <= n,
                self.wf(),
                b0 == old(self)@,
                b0.push_prefix(input@, k as nat) == Some(self@),
            decreases n - k,
        {
            if !self.push_edge(chars[k], None) {
                proof {
                    if b0.push_prefix(input@, n as nat) is Some {
                        lemma_push_prefix_prefix(b0, input@, (k + 1) as nat, n as nat);
                    }
                }
                return false;
            }
            k = k + 1;
        }
        true
    }

    /// Starts capturing with the next input; `false` where a capture is
    /// pending already or the capture ids run out.
    pub(crate) fn try_start_capturing(&mut self) -> (ok: bool)
        requires
            old(self).wf(),
        ensures
            final(self).wf(),
            ok <==> old(self)@.start_capturing() is Some,
            ok ==> final(self)@ == old(self)@.start_capturing()->0,
    {
        if self.start_capture.is_some() || self.dfa.num_captures == u16::MAX {
            return false;
        }
        let cid = self.dfa.new_capture();
        self.start_capture = Some(cid);
        true
    }

    /// Ends the open capture at the current state, under a fresh match id;
    /// `false` where no capture is open, the match ids run out or the state
    /// carries a conflicting action.
    pub(crate) fn try_end_capturing(&mut self) -> (ok: bool)
        requires
            old(self).wf(),
        ensures
            final(self).wf(),
            ok <==> old(self)@.end_capturing() is Some,
            ok ==> final(self)@ == old(self)@.end_capturing()->0,
    {
        match self.end_capture {
            None => false,
            Some(cid) => {
                if self.dfa.num_matches == u16::MAX {
                    return false;
                }
                let state = self.state;
                if !self.dfa.can_add_action(state, Action::EndCapture(cid, MatchId(self.dfa.num_matches))) {
                    return false;
                }
                self.end_capture = None;
                let mid = self.dfa.new_match();
                self.dfa.add_action(state, Action::EndCapture(cid, mid));
                true
            },
        }
    }

    /// Appends `chars` from the `k`th up to the `n`th (excluded), as
    /// [`BuilderModel::push_between`] describes; `false` where that fails.
    fn push_chars_between(&mut self, chars: &Vec<char>, k: usize, n: usize, fin: Option<StateId>) -> (ok: bool)
        requires
            old(self).wf(),
            k <= n <= chars@.len(),
        ensures
            final(self).wf(),
            ok <==> old(self)@.push_between(chars@, k as nat, n as nat, fin) is Some,
            ok ==> final(self)@ == old(self)@.push_between(chars@, k as nat, n as nat, fin)->0,
    {
        let ghost b0 = self@;
        let mut i: usize = k;
        while i < n
            invariant
                k <= i <= n,
                n <= chars@.len(),
                self.wf(),
                b0 == old(self)@,
                b0.push_between(chars@, k as nat, i as nat, fin) == Some(self@),
            decreases n - i,
        {
            let to = if i == chars.len() - 1 {
                fin
            } else {
                None
            };
            if !self.push_edge(chars[i], to) {
                proof {
                    if b0.push_between(chars@, k as nat, n as nat, fin) is Some {
                        lemma_push_between_prefix(b0, chars@, k as nat, (i + 1) as nat, n as nat, fin);
                    }
                }
                return false;
            }
            i = i + 1;
        }
        true
    }

    /// Appends the first character of `input`, ends the open capture at the
    /// state it leads to, and appends the rest of `input`; `false` where
    /// that fails.
    pub(crate) fn try_end_capturing_with(&mut self, input: &str) -> (ok: bool)
        requires
            old(self).wf(),
        ensures
            final(self).wf(),
            ok <==> old(self)@.end_capturing_with(input@) is Some,
            ok ==> final(self)@ == old(self)@.end_capturing_with(input@)->0,
    {
        let chars = chars_of(input);
        if chars.len() == 0 {
            return false;
        }
        if !self.push_chars_between(&chars, 0, 1, None) {
            return false;
        }
        if !self.try_end_capturing() {
            return false;
        }
        self.push_chars_between(&chars, 1, chars.len(), None)
    }

    /// Appends the first character of `input`, ends the open capture at the
    /// state it leads to, and appends the rest of `input`, which leads to the
    /// state `input` leads to from the state unmatched input leads back to;
    /// `false` where that fails.
    pub(crate) fn try_end_capturing_and_restart_with(&mut self, input: &str) -> (ok: bool)
        requires
            old(self).wf(),
        ensures
            final(self).wf(),
            ok <==> old(self)@.end_capturing_and_restart_with(input@) is Some,
            ok ==> final(self)@ == old(self)@.end_capturing_and_restart_with(input@)->0,
    {
        let chars = chars_of(input);
        let n = chars.len();
        if n == 0 {
            return false;
        }
        let ghost d0 = self@.dfa;
        let ghost b0 = self@;
        let mut final_state = self.dfa.any;
        let mut k: usize = 0;
        while k < n
            invariant
                n == input@.len(),
                chars@ == input@,
                k <= n,
                self.wf(),
                b0 == old(self)@,
                d0 == b0.dfa,
                d0.walk_states(d0.any, input@, k as nat) == Some((self@.dfa, final_state)),
                self@ == (BuilderModel { dfa: self@.dfa, ..b0 }),
            decreases n - k,
        {
            if !self.dfa.can_next_state(final_state, chars[k]) {
                proof {
                    if d0.walk_states(d0.any, input@, n as nat) is Some {
                        lemma_walk_states_prefix(d0, d0.any, input@, (k + 1) as nat, n as nat);
                    }
                }
                return false;
            }
            final_state = self.dfa.next_state(final_state, chars[k]);
            k = k + 1;
        }
        if !self.push_chars_between(&chars, 0, 1, Some(final_state)) {
            return false;
        }
        if !self.try_end_capturing() {
            return false;
        }
        self.push_chars_between(&chars, 1, n, Some(final_state))
    }
}

impl DfaModel {
    /// The action carried by `state`, if any.
    pub open spec fn action_of(self, state: StateId) -> Option<Action> {
        if self.actions.contains_key(state) {
            Some(self.actions[state])
        } else {
            None
        }
    }

    /// Whether `t` lists, as (source, target, input, action of the target),
    /// each transition exactly once.
    pub open spec fn lists_transitions(self, t: Seq<(StateId, StateId, char, Option<Action>)>) -> bool {
        &&& t.len() == self.edges.dom().len()
        &&& forall|i: int|
            0 <= i < t.len() ==> {
                &&& #[trigger] self.edges.contains_key((t[i].0, t[i].2))
                &&& self.edges[(t[i].0, t[i].2)] == t[i].1
                &&& t[i].3 == self.action_of(t[i].1)
            }
        &&& forall|i: int, j: int|
            0 <= i < t.len() && 0 <= j < t.len() && i != j ==> (t[i].0, t[i].2) != (t[j].0, t[j].2)
        &&& forall|k: (StateId, char)|
            #[trigger] self.edges.contains_key(k) ==> exists|i: int|
                0 <= i < t.len() && (t[i].0, t[i].2) == k
    }
}

impl Dfa {
    /// Returns the transitions of the DFA, each as (source, target, input,
    /// action of the target).
    pub fn iter_transitions(&self) -> (t: Vec<(StateId, StateId, char, Option<Action>)>)
        requires
            self.wf(),
        ensures
            self@.lists_transitions(t@),
    {
        let mut t: Vec<(StateId, StateId, char, Option<Action>)> = Vec::new();
        let mut i: usize = 0;
        while i < self.edges.len()
            invariant
                self.wf(),
                i <= self.edges@.len(),
                t@.len() == i,
                forall|j: int|
                    0 <= j < i ==> #[trigger] t@[j] == (
                        self.edges@[j].0.0,
                        self.edges@[j].1,
                        self.edges@[j].0.1,
                        self@.action_of(self.edges@[j].1),
                    ),
            decreases self.edges@.len() - i,
        {
            let ((from, input), to) = self.edges[i];
            let action = self.action_of(to);
            t.push((from, to, input, action));
            i = i + 1;
        }
        proof {
            crate::assoc::lemma_assoc_map_len(self.edges@);
            assert forall|j: int| 0 <= j < t@.len() implies {
                &&& #[trigger] self@.edges.contains_key((t@[j].0, t@[j].2))
                &&& self@.edges[(t@[j].0, t@[j].2)] == t@[j].1
                &&& t@[j].3 == self@.action_of(t@[j].1)
            } by {
                crate::assoc::lemma_assoc_map_index(self.edges@, j);
            }
            assert forall|k: (StateId, char)| #[trigger] self@.edges.contains_key(k) implies exists|j: int|
                0 <= j < t@.len() && (t@[j].0, t@[j].2) == k by {
                crate::assoc::lemma_assoc_map_has_index(self.edges@, k);
                let j = choose|j: int| 0 <= j < self.edges@.len() && self.edges@[j].0 == k;
                assert(t@[j] == (
                    self.edges@[j].0.0,
                    self.edges@[j].1,
                    self.edges@[j].0.1,
                    self@.action_of(self.edges@[j].1),
                ));
            }
        }
        t
    }

    /// Returns the states of the DFA, each once.
    pub fn iter_states(&self) -> (states: Vec<StateId>)
        requires
            self.wf(),
        ensures
            forall|s: StateId| states@.contains(s) <==> self@.has_state(s),
            forall|i: int, j: int|
                0 <= i < states@.len() && 0 <= j < states@.len() && i != j ==> states@[i] != states@[j],
    {
        let mut states: Vec<StateId> = Vec::new();
        let mut i: u16 = 0;
        while i < self.num_states
            invariant
                i <= self.num_states,
                states@.len() == i,
                forall|j: int| 0 <= j < i ==> #[trigger] states@[j] == StateId(j as u16),
            decreases self.num_states - i,
        {
            states.push(StateId(i));
            i = i + 1;
        }
        let ghost base = states@;
        let push_init = self.init.0 >= self.num_states;
        if push_init {
            states.push(self.init);
        }
        let ghost with_init = states@;
        let push_any = self.any.0 >= self.num_states && self.any.0 != self.init.0;
        if push_any {
            states.push(self.any);
        }
        proof {
            assert(with_init == if push_init { base.push(self.init) } else { base });
            assert(states@ == if push_any { with_init.push(self.any) } else { with_init });
            assert forall|s: StateId| self@.has_state(s) implies states@.contains(s) by {
                if s.0 < self.num_states {
                    assert(states@[s.0 as int] == s);
                } else if s == self.init {
                    assert(with_init[base.len() as int] == s);
                    assert(states@[base.len() as int] == s);
                } else {
                    assert(s == self.any);
                    assert(s.0 != self.init.0) by {
                        if s.0 == self.init.0 {
                            assert(s == StateId(s.0));
                            assert(self.init == StateId(self.init.0));
                        }
                    }
                    assert(push_any);
                    assert(states@[with_init.len() as int] == s);
                }
            }
        }
        states
    }
}

} // verus!
