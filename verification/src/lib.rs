//! Application-layer parsing in eBPF: the pattern compilers.
//!
//! Header patterns are compiled into DFAs whose transition tables are handed
//! to a pre-compiled BPF parser program. This crate holds the compilers and
//! the encodings of their tables; loading and attaching the BPF programs is
//! left to the caller.
use vstd::prelude::*;

mod assoc;
pub mod bpf;
pub mod fastpath;
pub mod h1;
pub mod header;
pub mod h2;
pub mod indexing;
pub mod preface;

verus! {

} // verus!
