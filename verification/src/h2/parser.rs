//! The HTTP/2 parser configuration: which header field values to capture,
//! and which functions of the target program the parser replaces.
use vstd::prelude::*;
use super::Action;
use super::dfa::{BuilderModel, Dfa, DfaModel};
use super::laws::{bounded_by, keeps_states, lemma_push_matches, lemma_push_within_bound};
use crate::preface::ActionCodes;
use crate::indexing::{static_name_entries, static_names, static_value_entries, static_values};
use crate::bpf::{u32_from_le, u32_from_be};
use vstd::utf8::encode_utf8;

verus! {

#[verifier::external_type_specification]
#[verifier::external_body]
pub struct ExEncoderError(httlib_huffman::EncoderError);

/// The HPACK Huffman code (RFC 7541, Appendix B) of `src`, as
/// `httlib_huffman::encode` computes it.
pub uninterp spec fn huffman_code(src: Seq<u8>) -> Seq<u8>;

/// `httlib_huffman::encode`: appends the Huffman code of `src` to `dst`.
///
/// Claimed of it, as its source shows: it never fails on bytes (its code
/// table has an entry for each of the 256 of them), and it appends the code
/// of `src`, padded to whole bytes, whose codes are 5 to 30 bits long each,
/// so that nothing is appended for no input and at most four bytes per input
/// byte otherwise. What the code of a given input is, is not stated.
#[verifier::external_body]
fn huffman_encode(src: &[u8], dst: &mut Vec<u8>) -> (r: Result<(), httlib_huffman::EncoderError>)
    ensures
        r is Ok,
        final(dst)@ == old(dst)@ + huffman_code(src@),
        final(dst)@.len() <= old(dst)@.len() + 4 * src@.len(),
        final(dst)@.len() == old(dst)@.len() <==> src@.len() == 0,
{
    httlib_huffman::encode(src, dst)
}

/// Why a header field cannot be captured.
#[derive(Clone, Copy, Debug, PartialEq, Eq, Structural)]
pub enum CaptureError {
    /// The header name is empty.
    InvalidHeaderName,
    /// Every capture id is handed out.
    TooManyCaptures,
    /// The DFA may run out of state ids.
    TooManyStates,
    /// The header name has no Huffman code.
    Encoding,
}

/// The optional name of a function, as characters.
pub open spec fn opt_string(s: Option<String>) -> Option<Seq<char>> {
    match s {
        Some(s) => Some(s@),
        None => None,
    }
}

/// What a [`Parser`] holds.
pub struct ParserModel {
    /// The state header patterns start from.
    pub s_any: u16,
    /// The DFA the patterns are compiled into.
    pub dfa: DfaModel,
    pub parse_msg_fn: Option<Seq<char>>,
    pub parse_buf_fn: Option<Seq<char>>,
    pub parse_skb_fn: Option<Seq<char>>,
    pub extract_fn: Option<Seq<char>>,
    pub matched_fn: Option<Seq<char>>,
}

/// What capturing the field named by the bytes `encoded` (Huffman coded)
/// makes of `d`: the name is followed from `from`, and the value after it is
/// captured by its last transition.
pub open spec fn capture_pattern(d: DfaModel, from: u16, encoded: Seq<u8>) -> Option<DfaModel> {
    match (BuilderModel { dfa: d, sid: from, prev_trans: None }).push(encoded) {
        Some(b) => match b.capture_field_value() {
            Some(b2) => Some(b2.dfa),
            None => None,
        },
        None => None,
    }
}

/// Whether the DFA leaves room for `k` more states above a bound of its
/// states.
pub open spec fn has_room(d: DfaModel, k: nat) -> bool {
    exists|b: int| bounded_by(d, b) && b + k <= 0x10000
}

/// Whether `b` may stand in a header name: a letter, a digit or one of
/// ``!#$%&'*+-.^_`|~``.
pub open spec fn is_tchar(b: u8) -> bool {
    ||| 48 <= b <= 57
    ||| 65 <= b <= 90
    ||| 97 <= b <= 122
    ||| b == 33 || b == 35 || b == 36 || b == 37 || b == 38 || b == 39 || b == 42 || b == 43
    ||| b == 45 || b == 46 || b == 94 || b == 95 || b == 96 || b == 124 || b == 126
}

/// The lower case of an ASCII letter byte; any other byte is its own.
pub open spec fn lower_byte(b: u8) -> u8 {
    if 65 <= b <= 90 {
        (b + 32) as u8
    } else {
        b
    }
}

/// Whether `name` is a header name: a nonempty token.
pub open spec fn is_header_name(name: Seq<char>) -> bool {
    &&& encode_utf8(name).len() > 0
    &&& forall|i: int| 0 <= i < encode_utf8(name).len() ==> is_tchar(#[trigger] encode_utf8(name)[i])
}

/// The bytes of header name `name`, in lower case.
pub open spec fn header_name_bytes(name: Seq<char>) -> Seq<u8> {
    encode_utf8(name).map_values(|b: u8| lower_byte(b))
}

/// The bytes of `name` in lower case, if it is a header name.
fn lowercase_header_name(name: &str) -> (r: Option<Vec<u8>>)
    ensures
        r is Some <==> is_header_name(name@),
        r matches Some(v) ==> v@ == header_name_bytes(name@),
{
    let bytes = name.as_bytes();
    if bytes.len() == 0 {
        return None;
    }
    let mut v: Vec<u8> = Vec::new();
    let mut i: usize = 0;
    while i < bytes.len()
        invariant
            bytes@ == encode_utf8(name@),
            i <= bytes@.len(),
            v@ == bytes@.take(i as int).map_values(|b: u8| lower_byte(b)),
            forall|j: int| 0 <= j < i ==> is_tchar(#[trigger] bytes@[j]),
        decreases bytes@.len() - i,
    {
        let b = bytes[i];
        let tchar = (48 <= b && b <= 57) || (65 <= b && b <= 90) || (97 <= b && b <= 122) || b == 33
            || b == 35 || b == 36 || b == 37 || b == 38 || b == 39 || b == 42 || b == 43 || b == 45
            || b == 46 || b == 94 || b == 95 || b == 96 || b == 124 || b == 126;
        if !tchar {
            return None;
        }
        let l = if 65 <= b && b <= 90 {
            b + 32
        } else {
            b
        };
        v.push(l);
        i = i + 1;
        assert(v@ =~= bytes@.take(i as int).map_values(|b: u8| lower_byte(b)));
    }
    assert(bytes@.take(bytes@.len() as int) =~= bytes@);
    Some(v)
}

/// The HTTP/2 parser of a target program.
pub struct Parser {
    s_any: u16,
    dfa: Dfa,
    parse_msg_fn: Option<String>,
    parse_buf_fn: Option<String>,
    parse_skb_fn: Option<String>,
    extract_fn: Option<String>,
    matched_fn: Option<String>,
}

impl View for Parser {
    type V = ParserModel;

    closed spec fn view(&self) -> ParserModel {
        ParserModel {
            s_any: self.s_any,
            dfa: self.dfa@,
            parse_msg_fn: opt_string(self.parse_msg_fn),
            parse_buf_fn: opt_string(self.parse_buf_fn),
            parse_skb_fn: opt_string(self.parse_skb_fn),
            extract_fn: opt_string(self.extract_fn),
            matched_fn: opt_string(self.matched_fn),
        }
    }
}

impl Parser {
    /// The DFA is well formed and holds the state patterns start from.
    pub closed spec fn wf(&self) -> bool {
        self.dfa.wf() && self.dfa@.states.contains(self.s_any)
    }

    /// Creates a new HTTP/2 parser, without patterns and without functions
    /// to replace. Patterns start from state 0; states 0 and 1 are reserved.
    pub fn new() -> (p: Parser)
        ensures
            p.wf(),
            p@.s_any == 0,
            p@.dfa.sid == 0,
            p@.dfa.cid == 0,
            p@.dfa.states == set![0u16, 1u16],
            p@.dfa.transitions == Map::<(u16, u8), (u16, Action)>::empty(),
            p@.parse_msg_fn is None,
            p@.parse_buf_fn is None,
            p@.parse_skb_fn is None,
            p@.extract_fn is None,
            p@.matched_fn is None,
    {
        let states = vec![0u16, 1u16];
        let dfa = Dfa::new(states);
        proof {
            assert(seq![0u16, 1u16].to_set() =~= set![0u16, 1u16]) by {
                assert(seq![0u16, 1u16].contains(0u16));
                assert(seq![0u16, 1u16][1] == 1u16);
            }
        }
        Parser {
            s_any: 0,
            dfa,
            parse_msg_fn: None,
            parse_buf_fn: None,
            parse_skb_fn: None,
            extract_fn: None,
            matched_fn: None,
        }
    }

    /// Names the function of the target program that the message parser
    /// replaces.
    pub fn replace_parse_msg(self, parse_fn: &str) -> (p: Parser)
        requires
            self.wf(),
        ensures
            p.wf(),
            p@ == (ParserModel { parse_msg_fn: Some(parse_fn@), ..self@ }),
    {
        Parser { parse_msg_fn: Some(parse_fn.to_owned()), ..self }
    }

    /// Names the function of the target program that the socket buffer
    /// parser replaces.
    pub fn replace_parse_skb(self, parse_fn: &str) -> (p: Parser)
        requires
            self.wf(),
        ensures
            p.wf(),
            p@ == (ParserModel { parse_skb_fn: Some(parse_fn@), ..self@ }),
    {
        Parser { parse_skb_fn: Some(parse_fn.to_owned()), ..self }
    }

    /// Names the function of the target program that the buffer parser
    /// replaces.
    pub fn replace_parse_buf(self, parse_fn: &str) -> (p: Parser)
        requires
            self.wf(),
        ensures
            p.wf(),
            p@ == (ParserModel { parse_buf_fn: Some(parse_fn@), ..self@ }),
    {
        Parser { parse_buf_fn: Some(parse_fn.to_owned()), ..self }
    }

    /// Names the function of the target program to be called when a pattern
    /// match is completed.
    pub fn replace_matched(self, matched_fn: &str) -> (p: Parser)
        requires
            self.wf(),
        ensures
            p.wf(),
            p@ == (ParserModel { matched_fn: Some(matched_fn@), ..self@ }),
    {
        Parser { matched_fn: Some(matched_fn.to_owned()), ..self }
    }

    /// Names the function of the target program to be called when
    /// extracting matched content.
    pub fn replace_extract(self, extract_fn: &str) -> (p: Parser)
        requires
            self.wf(),
        ensures
            p.wf(),
            p@ == (ParserModel { extract_fn: Some(extract_fn@), ..self@ }),
    {
        Parser { extract_fn: Some(extract_fn.to_owned()), ..self }
    }

    /// Configures the parser to capture the value of the header field
    /// `name`: its name, in lower case and Huffman coded, is followed from
    /// the state patterns start from, and the value after it is captured
    /// under the next capture id.
    ///
    /// Fails on a name that is no token (empty, or with a byte other than a
    /// letter, a digit or one of ``!#$%&'*+-.^_`|~``), when every capture id
    /// is handed out, and when the DFA does not leave room for a state per
    /// byte of the name's code.
    pub fn capture_hdr(self, name: &str) -> (r: Result<Parser, CaptureError>)
        requires
            self.wf(),
        ensures
            r matches Err(CaptureError::InvalidHeaderName) <==> !is_header_name(name@),
            r matches Err(CaptureError::TooManyCaptures) <==> is_header_name(name@) && self@.dfa.cid
                == u8::MAX,
            r matches Err(CaptureError::TooManyStates) <==> is_header_name(name@) && self@.dfa.cid
                < u8::MAX && !has_room(self@.dfa, huffman_code(header_name_bytes(name@)).len()),
            r is Ok <==> is_header_name(name@) && self@.dfa.cid < u8::MAX && has_room(
                self@.dfa,
                huffman_code(header_name_bytes(name@)).len(),
            ),
            r matches Ok(p) ==> {
                &&& p.wf()
                &&& capture_pattern(self@.dfa, self@.s_any, huffman_code(header_name_bytes(name@))) is Some
                &&& p@ == (ParserModel {
                    dfa: capture_pattern(
                        self@.dfa,
                        self@.s_any,
                        huffman_code(header_name_bytes(name@)),
                    )->0,
                    ..self@
                })
            },
    {
        let lower = match lowercase_header_name(name) {
            Some(lower) => lower,
            None => {
                return Err(CaptureError::InvalidHeaderName);
            },
        };
        if self.dfa.next_capture_id() == u8::MAX {
            return Err(CaptureError::TooManyCaptures);
        }
        let mut encoded: Vec<u8> = Vec::new();
        match huffman_encode(lower.as_slice(), &mut encoded) {
            Ok(()) => {},
            Err(_) => {
                return Err(CaptureError::Encoding);
            },
        }
        let bound = self.dfa.state_bound() as usize;
        if encoded.len() > 0x10000 - bound {
            proof {
                assert forall|b: int| bounded_by(self@.dfa, b) implies !(b + huffman_code(
                    header_name_bytes(name@),
                ).len() <= 0x10000) by {}
            }
            return Err(CaptureError::TooManyStates);
        }
        assert(encoded@ =~= huffman_code(lower@));
        let ghost b0 = BuilderModel { dfa: self@.dfa, sid: self.s_any, prev_trans: None };
        proof {
            lemma_push_within_bound(b0, encoded@, bound as int);
            lemma_push_matches(b0, encoded@);
        }
        let Parser { s_any, dfa, parse_msg_fn, parse_buf_fn, parse_skb_fn, extract_fn, matched_fn } =
            self;
        let mut b = dfa.start_pattern(s_any);
        b.push(encoded.as_slice()).capture_field_value();
        let dfa = b.finish();
        Ok(Parser { s_any, dfa, parse_msg_fn, parse_buf_fn, parse_skb_fn, extract_fn, matched_fn })
    }
}

impl Parser {
    /// Returns the transitions of the DFA, each as (source, target, input,
    /// action).
    pub fn iter_transitions(&self) -> (t: Vec<(u16, u16, u8, Action)>)
        requires
            self.wf(),
        ensures
            self@.dfa.lists_transitions(t@),
    {
        self.dfa.iter_transitions()
    }
}

/// A transition as the parser program's table holds it: the target state
/// and the code of the transition's action.
#[derive(Clone, Copy, Debug, PartialEq, Eq, Structural)]
pub struct Transition {
    pub state: u16,
    pub action: u16,
}

/// The code of `action`: a capture is the capture flag with the capture id
/// in the id bits.
pub open spec fn action_code(action: Action, codes: ActionCodes) -> u16 {
    match action {
        Action::CaptureFieldValue(cid) => codes.start_capture | ((cid as u16) & codes.id_mask),
        Action::Done => codes.done,
        Action::NoOp => 0,
    }
}

/// Where the id mask is a block of low bits that the capture flag does not
/// touch, the code of a capture whose id fits the mask carries the capture
/// flag, and its id bits give back the capture id; no other flag is set.
pub proof fn lemma_capture_code_decodes(cid: u8, codes: ActionCodes)
    requires
        (codes.id_mask as u32) & (((codes.id_mask as u32) + 1) as u32) == 0,
        codes.start_capture & codes.id_mask == 0,
        cid <= codes.id_mask,
    ensures
        action_code(Action::CaptureFieldValue(cid), codes) & codes.id_mask == cid,
        action_code(Action::CaptureFieldValue(cid), codes) & codes.start_capture == codes.start_capture,
        action_code(Action::CaptureFieldValue(cid), codes) & !codes.id_mask == codes.start_capture,
{
    let m = codes.id_mask;
    let f = codes.start_capture;
    let c = cid as u16;
    assert(c <= m);
    assert((f | (c & m)) & m == c) by (bit_vector)
        requires
            (m as u32) & (((m as u32) + 1) as u32) == 0,
            f & m == 0,
            c <= m,
    ;
    assert((f | (c & m)) & f == f) by (bit_vector);
    assert((f | (c & m)) & !m == f) by (bit_vector)
        requires
            f & m == 0,
    ;
}

/// The table entry of a transition to `state` that carries `action`.
pub fn new_transition(state: u16, action: Action, codes: &ActionCodes) -> (t: Transition)
    ensures
        t == (Transition { state, action: action_code(action, *codes) }),
{
    let action = match action {
        Action::CaptureFieldValue(cid) => codes.start_capture | ((cid as u16) & codes.id_mask),
        Action::Done => codes.done,
        Action::NoOp => 0,
    };
    Transition { state, action }
}

/// Whether `table` has an entry for every transition of `d`.
pub open spec fn table_fits(d: DfaModel, table: Seq<Vec<Transition>>) -> bool {
    forall|k: (u16, u8)| #[trigger]
        d.transitions.contains_key(k) ==> k.0 < table.len() && k.1 < table[k.0 as int]@.len()
}

/// Whether state `s` has a transition on the input numbered `i` in `d`.
pub open spec fn has_transition_at(d: DfaModel, s: int, i: int) -> bool {
    0 <= s <= u16::MAX && 0 <= i <= u8::MAX && d.transitions.contains_key((s as u16, i as u8))
}

/// Whether `t` is `t0` with the transitions of `d` written into it: each at
/// the row of its source state and the column of its input, as its target
/// state with the code of its action; every other entry as it was.
pub open spec fn injected(d: DfaModel, codes: ActionCodes, t0: Seq<Vec<Transition>>, t: Seq<Vec<Transition>>) -> bool {
    &&& t.len() == t0.len()
    &&& forall|s: int| 0 <= s < t.len() ==> #[trigger] t[s]@.len() == t0[s]@.len()
    &&& forall|k: (u16, u8)| #[trigger]
        d.transitions.contains_key(k) ==> t[k.0 as int]@[k.1 as int] == (Transition {
            state: d.transitions[k].0,
            action: action_code(d.transitions[k].1, codes),
        })
    &&& forall|s: int, i: int|
        0 <= s < t0.len() && 0 <= i < t0[s]@.len() && !has_transition_at(d, s, i) ==> #[trigger] t[s]@[i]
            == t0[s]@[i]
}

impl Parser {
    /// Writes the transitions of the parser's DFA into the parser program's
    /// table, indexed by source state and input byte: each entry is the
    /// target state with the code of its action.
    pub fn inject(&self, codes: &ActionCodes, table: &mut Vec<Vec<Transition>>)
        requires
            self.wf(),
            table_fits(self@.dfa, old(table)@),
        ensures
            injected(self@.dfa, *codes, old(table)@, final(table)@),
    {
        let t = self.dfa.iter_transitions();
        let ghost d = self@.dfa;
        let ghost t0 = old(table)@;
        let mut k: usize = 0;
        while k < t.len()
            invariant
                d.lists_transitions(t@),
                table_fits(d, t0),
                k <= t@.len(),
                table@.len() == t0.len(),
                forall|s: int| 0 <= s < table@.len() ==> #[trigger] table@[s]@.len() == t0[s]@.len(),
                forall|j: int|
                    0 <= j < k ==> #[trigger] table@[t@[j].0 as int]@[t@[j].2 as int] == (Transition {
                        state: t@[j].1,
                        action: action_code(t@[j].3, *codes),
                    }),
                forall|s: int, i: int|
                    0 <= s < t0.len() && 0 <= i < t0[s]@.len() && (forall|j: int|
                        0 <= j < k ==> !(t@[j].0 == s && t@[j].2 == i)) ==> #[trigger] table@[s]@[i]
                        == t0[s]@[i],
            decreases t@.len() - k,
        {
            let (from, to, input, action) = t[k];
            assert(d.transitions.contains_key((t@[k as int].0, t@[k as int].2)));
            let entry = new_transition(to, action, codes);
            let s = from as usize;
            let i = input as usize;
            let ghost before = table@;
            let mut row = table.remove(s);
            let ghost old_row = row@;
            row.set(i, entry);
            let ghost new_row = row@;
            table.insert(s, row);
            proof {
                assert(old_row == before[s as int]@);
                assert(table@ =~= before.update(s as int, row));
                assert(table@[s as int]@ == new_row);
                assert forall|j: int| 0 <= j < k + 1 implies #[trigger] table@[t@[j].0 as int]@[t@[j].2 as int]
                    == (Transition { state: t@[j].1, action: action_code(t@[j].3, *codes) }) by {
                    if j < k {
                        assert(d.transitions.contains_key((t@[j].0, t@[j].2)));
                        assert((t@[j].0, t@[j].2) != (t@[k as int].0, t@[k as int].2));
                        if t@[j].0 == from {
                            assert(table@[s as int]@[t@[j].2 as int] == old_row[t@[j].2 as int]);
                        } else {
                            assert(table@[t@[j].0 as int] == before[t@[j].0 as int]);
                        }
                    } else {
                        assert(table@[s as int]@[i as int] == entry);
                    }
                }
            }
            k = k + 1;
        }
        proof {
            assert forall|key: (u16, u8)| #[trigger] d.transitions.contains_key(key) implies table@[key.0 as int]@[key.1 as int]
                == (Transition {
                state: d.transitions[key].0,
                action: action_code(d.transitions[key].1, *codes),
            }) by {
                let j = choose|j: int| 0 <= j < t@.len() && (t@[j].0, t@[j].2) == key;
                assert(table@[t@[j].0 as int]@[t@[j].2 as int] == (Transition {
                    state: t@[j].1,
                    action: action_code(t@[j].3, *codes),
                }));
            }
            assert forall|s: int, i: int|
                0 <= s < t0.len() && 0 <= i < t0[s]@.len() && !has_transition_at(d, s, i) implies #[trigger] table@[s]@[i]
                == t0[s]@[i] by {
                assert forall|j: int| 0 <= j < t@.len() implies !(t@[j].0 == s && t@[j].2 == i) by {
                    if t@[j].0 == s && t@[j].2 == i {
                        assert(d.transitions.contains_key((t@[j].0, t@[j].2)));
                        assert((t@[j].0, t@[j].2) == (s as u16, i as u8));
                    }
                }
            }
        }
    }
}

/// The length of the key and of the value of a header field in the parser
/// program's static table.
pub const HEADER_FIELD_LEN: usize = 128;

/// `s` cut or zero padded to `n` bytes.
pub open spec fn resized(s: Seq<u8>, n: nat) -> Seq<u8> {
    if s.len() >= n {
        s.take(n as int)
    } else {
        s + Seq::new((n - s.len()) as nat, |i: int| 0u8)
    }
}

/// A header field as the parser program's static table holds it: the
/// Huffman codes of its name and value, each in a field of
/// [`HEADER_FIELD_LEN`] bytes, with their lengths.
pub struct HeaderField {
    pub key: Vec<u8>,
    pub key_len: u8,
    pub val: Vec<u8>,
    pub val_len: u8,
}

/// The optional value of a header field, as characters.
pub open spec fn opt_str(s: Option<&str>) -> Option<Seq<char>> {
    match s {
        Some(s) => Some(s@),
        None => None,
    }
}

/// The Huffman code of the value of a header field; nothing for none.
pub open spec fn value_code(val: Option<Seq<char>>) -> Seq<u8> {
    match val {
        Some(v) => huffman_code(encode_utf8(v)),
        None => Seq::empty(),
    }
}

/// Whether `hf` holds the header field named `key` with value `val`: each
/// Huffman coded, cut or zero padded to the field's length, with the length
/// of the code in a byte (its lower eight bits).
pub open spec fn holds_header_field(hf: HeaderField, key: Seq<char>, val: Option<Seq<char>>) -> bool {
    let k = huffman_code(encode_utf8(key));
    let v = value_code(val);
    &&& hf.key@ == resized(k, HEADER_FIELD_LEN as nat)
    &&& hf.key_len == k.len() as u8
    &&& hf.val@ == resized(v, HEADER_FIELD_LEN as nat)
    &&& hf.val_len == v.len() as u8
}

/// `v` cut or zero padded to [`HEADER_FIELD_LEN`] bytes.
fn resize_field(v: &mut Vec<u8>)
    ensures
        final(v)@ == resized(old(v)@, HEADER_FIELD_LEN as nat),
{
    let ghost v0 = v@;
    v.resize(HEADER_FIELD_LEN, 0u8);
    proof {
        if v0.len() < HEADER_FIELD_LEN {
            assert forall|i: int| 0 <= i < v@.len() implies v@[i] == resized(
                v0,
                HEADER_FIELD_LEN as nat,
            )[i] by {
                if i < v0.len() {
                    assert(v@.subrange(0, v0.len() as int)[i] == v0[i]);
                } else {
                    assert(cloned::<u8>(0u8, v@[i]));
                }
            }
            assert(v@ =~= resized(v0, HEADER_FIELD_LEN as nat));
        } else {
            assert(v@ =~= resized(v0, HEADER_FIELD_LEN as nat));
        }
    }
}

/// The static table entry of the header field named `key` with value
/// `val`.
pub fn new_header_field(key: &str, val: Option<&str>) -> (hf: HeaderField)
    ensures
        holds_header_field(hf, key@, opt_str(val)),
{
    let mut hf_key: Vec<u8> = Vec::new();
    let _ = huffman_encode(key.as_bytes(), &mut hf_key);
    assert(hf_key@ =~= huffman_code(encode_utf8(key@)));
    let mut hf_val: Vec<u8> = Vec::new();
    if let Some(val) = val {
        let _ = huffman_encode(val.as_bytes(), &mut hf_val);
        assert(hf_val@ =~= huffman_code(encode_utf8(val@)));
    }
    assert(hf_val@ =~= value_code(opt_str(val)));
    let key_len = hf_key.len() as u8;
    let val_len = hf_val.len() as u8;
    resize_field(&mut hf_key);
    resize_field(&mut hf_val);
    HeaderField { key: hf_key, key_len, val: hf_val, val_len }
}

/// The entries of the parser program's static table, each with its index:
/// first those that hold a value, in the order of [`static_values`], then
/// those that hold none, in the order of [`static_names`].
pub fn static_table_fields() -> (fields: Vec<(u32, HeaderField)>)
    ensures
        fields@.len() == static_values().len() + static_names().len(),
        forall|i: int|
            0 <= i < static_values().len() ==> {
                &&& (#[trigger] fields@[i]).0 == static_values()[i].2
                &&& holds_header_field(
                    fields@[i].1,
                    static_values()[i].0,
                    Some(static_values()[i].1),
                )
            },
        forall|i: int|
            0 <= i < static_names().len() ==> {
                &&& (#[trigger] fields@[static_values().len() + i]).0 == static_names()[i].1
                &&& holds_header_field(fields@[static_values().len() + i].1, static_names()[i].0, None)
            },
{
    let values = static_value_entries();
    let names = static_name_entries();
    let mut fields: Vec<(u32, HeaderField)> = Vec::new();
    let mut i: usize = 0;
    while i < 14
        invariant
            i <= 14,
            values@.len() == 14,
            static_values().len() == 14,
            forall|k: int|
                0 <= k < 14 ==> (#[trigger] values@[k]).0@ == static_values()[k].0 && values@[k].1@
                    == static_values()[k].1 && values@[k].2 == static_values()[k].2,
            forall|k: int| 0 <= k < 14 ==> #[trigger] static_values()[k].2 <= 61,
            fields@.len() == i,
            forall|k: int|
                0 <= k < i ==> {
                    &&& (#[trigger] fields@[k]).0 == static_values()[k].2
                    &&& holds_header_field(
                        fields@[k].1,
                        static_values()[k].0,
                        Some(static_values()[k].1),
                    )
                },
        decreases 14 - i,
    {
        let (key, val, idx) = values[i];
        let hf = new_header_field(key, Some(val));
        fields.push((idx as u32, hf));
        i = i + 1;
    }
    let mut j: usize = 0;
    while j < 47
        invariant
            j <= 47,
            names@.len() == 47,
            static_names().len() == 47,
            static_values().len() == 14,
            forall|k: int|
                0 <= k < 47 ==> (#[trigger] names@[k]).0@ == static_names()[k].0 && names@[k].1
                    == static_names()[k].1,
            forall|k: int| 0 <= k < 47 ==> #[trigger] static_names()[k].1 <= 61,
            fields@.len() == 14 + j,
            forall|k: int|
                0 <= k < 14 ==> {
                    &&& (#[trigger] fields@[k]).0 == static_values()[k].2
                    &&& holds_header_field(
                        fields@[k].1,
                        static_values()[k].0,
                        Some(static_values()[k].1),
                    )
                },
            forall|k: int|
                0 <= k < j ==> {
                    &&& (#[trigger] fields@[14 + k]).0 == static_names()[k].1
                    &&& holds_header_field(fields@[14 + k].1, static_names()[k].0, None)
                },
        decreases 47 - j,
    {
        let (key, idx) = names[j];
        let hf = new_header_field(key, None);
        fields.push((idx as u32, hf));
        j = j + 1;
    }
    fields
}

/// The state of the HPACK dynamic table of a connection, as the parser
/// program records it.
#[derive(Clone, Copy, Debug, Default, PartialEq, Eq, Structural)]
pub struct DynamicTableInfo {
    pub count: u32,
    pub size: u32,
    pub max_size: u32,
    pub deleted: u32,
}

/// The four bytes of `b` from `at` on, read as a little-endian number.
fn le_u32_at(b: &[u8], at: usize) -> (r: u32)
    requires
        at <= 12,
        at + 4 <= b@.len(),
    ensures
        r == u32_from_le(b@.subrange(at as int, at + 4)),
{
    let r = b[at] as u32 + 256 * (b[at + 1] as u32) + 65536 * (b[at + 2] as u32) + 16777216 * (b[
        at + 3
    ] as u32);
    r
}

/// The four bytes of `b` from `at` on, read as a big-endian number.
fn be_u32_at(b: &[u8], at: usize) -> (r: u32)
    requires
        at <= 12,
        at + 4 <= b@.len(),
    ensures
        r == u32_from_be(b@.subrange(at as int, at + 4)),
{
    let r = b[at + 3] as u32 + 256 * (b[at + 2] as u32) + 65536 * (b[at + 1] as u32) + 16777216 * (b[
        at
    ] as u32);
    r
}

/// Whether `info` holds the four words of `val`, in order, each read as
/// a little-endian number.
pub open spec fn reads_le(val: Seq<u8>, info: DynamicTableInfo) -> bool {
    &&& info.count == u32_from_le(val.subrange(0, 4))
    &&& info.size == u32_from_le(val.subrange(4, 8))
    &&& info.max_size == u32_from_le(val.subrange(8, 12))
    &&& info.deleted == u32_from_le(val.subrange(12, 16))
}

/// Whether `info` holds the four words of `val`, in order, each read as
/// a big-endian number.
pub open spec fn reads_be(val: Seq<u8>, info: DynamicTableInfo) -> bool {
    &&& info.count == u32_from_be(val.subrange(0, 4))
    &&& info.size == u32_from_be(val.subrange(4, 8))
    &&& info.max_size == u32_from_be(val.subrange(8, 12))
    &&& info.deleted == u32_from_be(val.subrange(12, 16))
}

/// Reads the dynamic table state that the parser program stored for a
/// connection: its four fields, in order, each in four bytes in the
/// machine's own byte order (the same for all four). Fails on fewer than 16
/// bytes; bytes past them are ignored.
pub fn dynamic_table_info_from_bytes(val: &[u8]) -> (r: Option<DynamicTableInfo>)
    ensures
        r is Some <==> val@.len() >= 16,
        r matches Some(info) ==> reads_le(val@, info) || reads_be(val@, info),
{
    if val.len() < 16 {
        return None;
    }
    let little_endian = crate::bpf::u32_from_ne_bytes([1u8, 0u8, 0u8, 0u8]) == 1;
    if little_endian {
        Some(
            DynamicTableInfo {
                count: le_u32_at(val, 0),
                size: le_u32_at(val, 4),
                max_size: le_u32_at(val, 8),
                deleted: le_u32_at(val, 12),
            },
        )
    } else {
        Some(
            DynamicTableInfo {
                count: be_u32_at(val, 0),
                size: be_u32_at(val, 4),
                max_size: be_u32_at(val, 8),
                deleted: be_u32_at(val, 12),
            },
        )
    }
}

} // verus!
