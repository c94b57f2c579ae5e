//! The names Beeline uses to address the fields of a request or status line.
//!
//! HTTP/2 carries them as pseudo-headers, HTTP/1.x as part of the first line
//! of a message. They are spelled without the leading colon of their HTTP/2
//! counterparts so that a single name addresses the same field in both
//! protocols.
use vstd::prelude::*;

verus! {

/// The method of a request, e.g. `GET`.
pub const METHOD: &'static str = "method";

/// The path a request is addressed to, e.g. `/index.html`.
pub const PATH: &'static str = "path";

/// The status code of a response, e.g. `200`.
pub const STATUS: &'static str = "status";

} // verus!
