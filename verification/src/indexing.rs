//! Capturing header fields whose names are indexed in the HPACK static
//! table (RFC 7541, Appendix A): such a field, sent as a literal with
//! incremental indexing, starts with the index of its name.
use vstd::prelude::*;
use crate::fastpath::str_eq;
use crate::h2::Action;
use crate::h2::dfa::{BuilderModel, Dfa, DfaModel};
use crate::h2::laws::{bounded_by, lemma_push_matches, lemma_push_within_bound};
use crate::h2::parser::{CaptureError, capture_pattern, has_room};

verus! {

/// The prefix mask of an HPACK integer with a prefix of `prefix` bits.
pub open spec fn hpack_prefix_mask(prefix: u8) -> nat {
    if prefix >= 8 {
        255
    } else {
        (vstd::arithmetic::power2::pow2(prefix as nat) - 1) as nat
    }
}

/// The bytes that follow the prefix of an HPACK integer: seven bits each,
/// least significant first, the high bit set on all but the last.
pub open spec fn hpack_continuation(v: nat) -> Seq<u8>
    decreases v,
{
    if v >= 128 {
        seq![(v % 128 + 128) as u8] + hpack_continuation(v / 128)
    } else {
        seq![v as u8]
    }
}

/// The HPACK integer representation (RFC 7541, 5.1) of `value` with a
/// prefix of `prefix` bits, with the bits above the prefix clear.
pub open spec fn hpack_integer(value: nat, prefix: u8) -> Seq<u8> {
    let mask = hpack_prefix_mask(prefix);
    if value < mask {
        seq![value as u8]
    } else {
        seq![mask as u8] + hpack_continuation((value - mask) as nat)
    }
}

/// `hpack::encoder::encode_integer`: the HPACK integer representation of
/// `value` with a prefix of `prefix_size` bits, as its source computes it
/// (with no leading bits), claimed here as [`hpack_integer`] states it.
#[verifier::external_body]
fn encode_integer(value: usize, prefix_size: u8) -> (r: Vec<u8>)
    ensures
        r@ == hpack_integer(value as nat, prefix_size),
{
    hpack::encoder::encode_integer(value, prefix_size)
}

/// The names of the HPACK static table whose entries hold no value, with
/// their indices.
pub open spec fn static_names() -> Seq<(Seq<char>, usize)> {
    seq![
        (":authority"@, 1usize),
        ("accept-charset"@, 15usize),
        ("accept-language"@, 17usize),
        ("accept-ranges"@, 18usize),
        ("accept"@, 19usize),
        ("access-control-allow-origin"@, 20usize),
        ("age"@, 21usize),
        ("allow"@, 22usize),
        ("authorization"@, 23usize),
        ("cache-control"@, 24usize),
        ("content-disposition"@, 25usize),
        ("content-encoding"@, 26usize),
        ("content-language"@, 27usize),
        ("content-length"@, 28usize),
        ("content-location"@, 29usize),
        ("content-range"@, 30usize),
        ("content-type"@, 31usize),
        ("cookie"@, 32usize),
        ("date"@, 33usize),
        ("etag"@, 34usize),
        ("expect"@, 35usize),
        ("expires"@, 36usize),
        ("from"@, 37usize),
        ("host"@, 38usize),
        ("if-match"@, 39usize),
        ("if-modified-since"@, 40usize),
        ("if-none-match"@, 41usize),
        ("if-range"@, 42usize),
        ("if-unmodified-since"@, 43usize),
        ("last-modified"@, 44usize),
        ("link"@, 45usize),
        ("location"@, 46usize),
        ("max-forwards"@, 47usize),
        ("proxy-authenticate"@, 48usize),
        ("proxy-authorization"@, 49usize),
        ("range"@, 50usize),
        ("referer"@, 51usize),
        ("refresh"@, 52usize),
        ("retry-after"@, 53usize),
        ("server"@, 54usize),
        ("set-cookie"@, 55usize),
        ("strict-transport-security"@, 56usize),
        ("transfer-encoding"@, 57usize),
        ("user-agent"@, 58usize),
        ("vary"@, 59usize),
        ("via"@, 60usize),
        ("www-authenticate"@, 61usize),
    ]
}

/// The HPACK static table (RFC 7541, Appendix A), in order: the entry at
/// position `i` has index `i + 1`.
pub open spec fn rfc7541_static_table() -> Seq<(Seq<char>, Option<Seq<char>>)> {
    seq![
        (":authority"@, None),
        (":method"@, Some("GET"@)),
        (":method"@, Some("POST"@)),
        (":path"@, Some("/"@)),
        (":path"@, Some("/index.html"@)),
        (":scheme"@, Some("http"@)),
        (":scheme"@, Some("https"@)),
        (":status"@, Some("200"@)),
        (":status"@, Some("204"@)),
        (":status"@, Some("206"@)),
        (":status"@, Some("304"@)),
        (":status"@, Some("400"@)),
        (":status"@, Some("404"@)),
        (":status"@, Some("500"@)),
        ("accept-charset"@, None),
        ("accept-encoding"@, Some("gzip, deflate"@)),
        ("accept-language"@, None),
        ("accept-ranges"@, None),
        ("accept"@, None),
        ("access-control-allow-origin"@, None),
        ("age"@, None),
        ("allow"@, None),
        ("authorization"@, None),
        ("cache-control"@, None),
        ("content-disposition"@, None),
        ("content-encoding"@, None),
        ("content-language"@, None),
        ("content-length"@, None),
        ("content-location"@, None),
        ("content-range"@, None),
        ("content-type"@, None),
        ("cookie"@, None),
        ("date"@, None),
        ("etag"@, None),
        ("expect"@, None),
        ("expires"@, None),
        ("from"@, None),
        ("host"@, None),
        ("if-match"@, None),
        ("if-modified-since"@, None),
        ("if-none-match"@, None),
        ("if-range"@, None),
        ("if-unmodified-since"@, None),
        ("last-modified"@, None),
        ("link"@, None),
        ("location"@, None),
        ("max-forwards"@, None),
        ("proxy-authenticate"@, None),
        ("proxy-authorization"@, None),
        ("range"@, None),
        ("referer"@, None),
        ("refresh"@, None),
        ("retry-after"@, None),
        ("server"@, None),
        ("set-cookie"@, None),
        ("strict-transport-security"@, None),
        ("transfer-encoding"@, None),
        ("user-agent"@, None),
        ("vary"@, None),
        ("via"@, None),
        ("www-authenticate"@, None),
    ]
}

/// Each entry of [`static_names`] is the entry of the static table at its
/// index, a name without value.
#[verifier::rlimit(100)]
pub proof fn lemma_static_names_follow_rfc7541()
    ensures
        forall|i: int|
            0 <= i < static_names().len() ==> 1 <= #[trigger] static_names()[i].1 <= 61
                && rfc7541_static_table()[static_names()[i].1 - 1] == (
                static_names()[i].0,
                None::<Seq<char>>,
            ),
{
    assert(static_names().len() == 47);
    assert(rfc7541_static_table().len() == 61);
    assert forall|i: int| 0 <= i < static_names().len() implies 1 <= #[trigger] static_names()[i].1 <= 61
        && rfc7541_static_table()[static_names()[i].1 - 1] == (
        static_names()[i].0,
        None::<Seq<char>>,
    ) by {
        if i == 0 {
            assert(static_names()[0] == (":authority"@, 1usize));
            assert(rfc7541_static_table()[0] == (":authority"@, None::<Seq<char>>));
        } else if i == 1 {
            assert(static_names()[1] == ("accept-charset"@, 15usize));
            assert(rfc7541_static_table()[14] == ("accept-charset"@, None::<Seq<char>>));
        } else if i == 2 {
            assert(static_names()[2] == ("accept-language"@, 17usize));
            assert(rfc7541_static_table()[16] == ("accept-language"@, None::<Seq<char>>));
        } else if i == 3 {
            assert(static_names()[3] == ("accept-ranges"@, 18usize));
            assert(rfc7541_static_table()[17] == ("accept-ranges"@, None::<Seq<char>>));
        } else if i == 4 {
            assert(static_names()[4] == ("accept"@, 19usize));
            assert(rfc7541_static_table()[18] == ("accept"@, None::<Seq<char>>));
        } else if i == 5 {
            assert(static_names()[5] == ("access-control-allow-origin"@, 20usize));
            assert(rfc7541_static_table()[19] == ("access-control-allow-origin"@, None::<Seq<char>>));
        } else if i == 6 {
            assert(static_names()[6] == ("age"@, 21usize));
            assert(rfc7541_static_table()[20] == ("age"@, None::<Seq<char>>));
        } else if i == 7 {
            assert(static_names()[7] == ("allow"@, 22usize));
            assert(rfc7541_static_table()[21] == ("allow"@, None::<Seq<char>>));
        } else if i == 8 {
            assert(static_names()[8] == ("authorization"@, 23usize));
            assert(rfc7541_static_table()[22] == ("authorization"@, None::<Seq<char>>));
        } else if i == 9 {
            assert(static_names()[9] == ("cache-control"@, 24usize));
            assert(rfc7541_static_table()[23] == ("cache-control"@, None::<Seq<char>>));
        } else if i == 10 {
            assert(static_names()[10] == ("content-disposition"@, 25usize));
            assert(rfc7541_static_table()[24] == ("content-disposition"@, None::<Seq<char>>));
        } else if i == 11 {
            assert(static_names()[11] == ("content-encoding"@, 26usize));
            assert(rfc7541_static_table()[25] == ("content-encoding"@, None::<Seq<char>>));
        } else if i == 12 {
            assert(static_names()[12] == ("content-language"@, 27usize));
            assert(rfc7541_static_table()[26] == ("content-language"@, None::<Seq<char>>));
        } else if i == 13 {
            assert(static_names()[13] == ("content-length"@, 28usize));
            assert(rfc7541_static_table()[27] == ("content-length"@, None::<Seq<char>>));
        } else if i == 14 {
            assert(static_names()[14] == ("content-location"@, 29usize));
            assert(rfc7541_static_table()[28] == ("content-location"@, None::<Seq<char>>));
        } else if i == 15 {
            assert(static_names()[15] == ("content-range"@, 30usize));
            assert(rfc7541_static_table()[29] == ("content-range"@, None::<Seq<char>>));
        } else if i == 16 {
            assert(static_names()[16] == ("content-type"@, 31usize));
            assert(rfc7541_static_table()[30] == ("content-type"@, None::<Seq<char>>));
        } else if i == 17 {
            assert(static_names()[17] == ("cookie"@, 32usize));
            assert(rfc7541_static_table()[31] == ("cookie"@, None::<Seq<char>>));
        } else if i == 18 {
            assert(static_names()[18] == ("date"@, 33usize));
            assert(rfc7541_static_table()[32] == ("date"@, None::<Seq<char>>));
        } else if i == 19 {
            assert(static_names()[19] == ("etag"@, 34usize));
            assert(rfc7541_static_table()[33] == ("etag"@, None::<Seq<char>>));
        } else if i == 20 {
            assert(static_names()[20] == ("expect"@, 35usize));
            assert(rfc7541_static_table()[34] == ("expect"@, None::<Seq<char>>));
        } else if i == 21 {
            assert(static_names()[21] == ("expires"@, 36usize));
            assert(rfc7541_static_table()[35] == ("expires"@, None::<Seq<char>>));
        } else if i == 22 {
            assert(static_names()[22] == ("from"@, 37usize));
            assert(rfc7541_static_table()[36] == ("from"@, None::<Seq<char>>));
        } else if i == 23 {
            assert(static_names()[23] == ("host"@, 38usize));
            assert(rfc7541_static_table()[37] == ("host"@, None::<Seq<char>>));
        } else if i == 24 {
            assert(static_names()[24] == ("if-match"@, 39usize));
            assert(rfc7541_static_table()[38] == ("if-match"@, None::<Seq<char>>));
        } else if i == 25 {
            assert(static_names()[25] == ("if-modified-since"@, 40usize));
            assert(rfc7541_static_table()[39] == ("if-modified-since"@, None::<Seq<char>>));
        } else if i == 26 {
            assert(static_names()[26] == ("if-none-match"@, 41usize));
            assert(rfc7541_static_table()[40] == ("if-none-match"@, None::<Seq<char>>));
        } else if i == 27 {
            assert(static_names()[27] == ("if-range"@, 42usize));
            assert(rfc7541_static_table()[41] == ("if-range"@, None::<Seq<char>>));
        } else if i == 28 {
            assert(static_names()[28] == ("if-unmodified-since"@, 43usize));
            assert(rfc7541_static_table()[42] == ("if-unmodified-since"@, None::<Seq<char>>));
        } else if i == 29 {
            assert(static_names()[29] == ("last-modified"@, 44usize));
            assert(rfc7541_static_table()[43] == ("last-modified"@, None::<Seq<char>>));
        } else if i == 30 {
            assert(static_names()[30] == ("link"@, 45usize));
            assert(rfc7541_static_table()[44] == ("link"@, None::<Seq<char>>));
        } else if i == 31 {
            assert(static_names()[31] == ("location"@, 46usize));
            assert(rfc7541_static_table()[45] == ("location"@, None::<Seq<char>>));
        } else if i == 32 {
            assert(static_names()[32] == ("max-forwards"@, 47usize));
            assert(rfc7541_static_table()[46] == ("max-forwards"@, None::<Seq<char>>));
        } else if i == 33 {
            assert(static_names()[33] == ("proxy-authenticate"@, 48usize));
            assert(rfc7541_static_table()[47] == ("proxy-authenticate"@, None::<Seq<char>>));
        } else if i == 34 {
            assert(static_names()[34] == ("proxy-authorization"@, 49usize));
            assert(rfc7541_static_table()[48] == ("proxy-authorization"@, None::<Seq<char>>));
        } else if i == 35 {
            assert(static_names()[35] == ("range"@, 50usize));
            assert(rfc7541_static_table()[49] == ("range"@, None::<Seq<char>>));
        } else if i == 36 {
            assert(static_names()[36] == ("referer"@, 51usize));
            assert(rfc7541_static_table()[50] == ("referer"@, None::<Seq<char>>));
        } else if i == 37 {
            assert(static_names()[37] == ("refresh"@, 52usize));
            assert(rfc7541_static_table()[51] == ("refresh"@, None::<Seq<char>>));
        } else if i == 38 {
            assert(static_names()[38] == ("retry-after"@, 53usize));
            assert(rfc7541_static_table()[52] == ("retry-after"@, None::<Seq<char>>));
        } else if i == 39 {
            assert(static_names()[39] == ("server"@, 54usize));
            assert(rfc7541_static_table()[53] == ("server"@, None::<Seq<char>>));
        } else if i == 40 {
            assert(static_names()[40] == ("set-cookie"@, 55usize));
            assert(rfc7541_static_table()[54] == ("set-cookie"@, None::<Seq<char>>));
        } else if i == 41 {
            assert(static_names()[41] == ("strict-transport-security"@, 56usize));
            assert(rfc7541_static_table()[55] == ("strict-transport-security"@, None::<Seq<char>>));
        } else if i == 42 {
            assert(static_names()[42] == ("transfer-encoding"@, 57usize));
            assert(rfc7541_static_table()[56] == ("transfer-encoding"@, None::<Seq<char>>));
        } else if i == 43 {
            assert(static_names()[43] == ("user-agent"@, 58usize));
            assert(rfc7541_static_table()[57] == ("user-agent"@, None::<Seq<char>>));
        } else if i == 44 {
            assert(static_names()[44] == ("vary"@, 59usize));
            assert(rfc7541_static_table()[58] == ("vary"@, None::<Seq<char>>));
        } else if i == 45 {
            assert(static_names()[45] == ("via"@, 60usize));
            assert(rfc7541_static_table()[59] == ("via"@, None::<Seq<char>>));
        } else if i == 46 {
            assert(static_names()[46] == ("www-authenticate"@, 61usize));
            assert(rfc7541_static_table()[60] == ("www-authenticate"@, None::<Seq<char>>));
        }
    }
}

/// The index of `name` among [`static_names`], the first one that matches.
pub open spec fn static_index_of(name: Seq<char>) -> Option<usize> {
    if exists|i: int| 0 <= i < static_names().len() && static_names()[i].0 == name {
        let i = choose|i: int|
            0 <= i < static_names().len() && static_names()[i].0 == name && forall|j: int|
                0 <= j < i ==> static_names()[j].0 != name;
        Some(static_names()[i].1)
    } else {
        None
    }
}

/// The names of the static table entries without value, with their
/// indices, as [`static_names`] lists them.
pub fn static_name_entries() -> (names: [(&'static str, usize); 47])
    ensures
        names@.len() == static_names().len(),
        forall|i: int|
            0 <= i < 47 ==> (#[trigger] names@[i]).0@ == static_names()[i].0 && names@[i].1
                == static_names()[i].1,
{
    let names: [(&'static str, usize); 47] = [
        (":authority", 1),
        ("accept-charset", 15),
        ("accept-language", 17),
        ("accept-ranges", 18),
        ("accept", 19),
        ("access-control-allow-origin", 20),
        ("age", 21),
        ("allow", 22),
        ("authorization", 23),
        ("cache-control", 24),
        ("content-disposition", 25),
        ("content-encoding", 26),
        ("content-language", 27),
        ("content-length", 28),
        ("content-location", 29),
        ("content-range", 30),
        ("content-type", 31),
        ("cookie", 32),
        ("date", 33),
        ("etag", 34),
        ("expect", 35),
        ("expires", 36),
        ("from", 37),
        ("host", 38),
        ("if-match", 39),
        ("if-modified-since", 40),
        ("if-none-match", 41),
        ("if-range", 42),
        ("if-unmodified-since", 43),
        ("last-modified", 44),
        ("link", 45),
        ("location", 46),
        ("max-forwards", 47),
        ("proxy-authenticate", 48),
        ("proxy-authorization", 49),
        ("range", 50),
        ("referer", 51),
        ("refresh", 52),
        ("retry-after", 53),
        ("server", 54),
        ("set-cookie", 55),
        ("strict-transport-security", 56),
        ("transfer-encoding", 57),
        ("user-agent", 58),
        ("vary", 59),
        ("via", 60),
        ("www-authenticate", 61),
    ];
    assert(names@.len() == static_names().len());
    assert(forall|i: int|
        0 <= i < 47 ==> (#[trigger] names@[i]).0@ == static_names()[i].0 && names@[i].1
            == static_names()[i].1);
    names
}

/// The entries of the HPACK static table that hold a value: name, value
/// and index.
pub open spec fn static_values() -> Seq<(Seq<char>, Seq<char>, usize)> {
    seq![
        (":method"@, "GET"@, 2usize),
        (":method"@, "POST"@, 3usize),
        (":path"@, "/"@, 4usize),
        (":path"@, "/index.html"@, 5usize),
        (":scheme"@, "http"@, 6usize),
        (":scheme"@, "https"@, 7usize),
        (":status"@, "200"@, 8usize),
        (":status"@, "204"@, 9usize),
        (":status"@, "206"@, 10usize),
        (":status"@, "304"@, 11usize),
        (":status"@, "400"@, 12usize),
        (":status"@, "404"@, 13usize),
        (":status"@, "500"@, 14usize),
        ("accept-encoding"@, "gzip, deflate"@, 16usize),
    ]
}

/// Each entry of [`static_values`] is the entry of the static table at its
/// index, the name with its value.
pub proof fn lemma_static_values_follow_rfc7541()
    ensures
        forall|i: int|
            0 <= i < static_values().len() ==> 1 <= #[trigger] static_values()[i].2 <= 61
                && rfc7541_static_table()[static_values()[i].2 - 1] == (
                static_values()[i].0,
                Some(static_values()[i].1),
            ),
{
    assert(static_values().len() == 14);
    assert(rfc7541_static_table().len() == 61);
    assert forall|i: int| 0 <= i < static_values().len() implies 1 <= #[trigger] static_values()[i].2 <= 61
        && rfc7541_static_table()[static_values()[i].2 - 1] == (
        static_values()[i].0,
        Some(static_values()[i].1),
    ) by {
        if i == 0 {
            assert(static_values()[0] == (":method"@, "GET"@, 2usize));
            assert(rfc7541_static_table()[1] == (":method"@, Some("GET"@)));
        } else if i == 1 {
            assert(static_values()[1] == (":method"@, "POST"@, 3usize));
            assert(rfc7541_static_table()[2] == (":method"@, Some("POST"@)));
        } else if i == 2 {
            assert(static_values()[2] == (":path"@, "/"@, 4usize));
            assert(rfc7541_static_table()[3] == (":path"@, Some("/"@)));
        } else if i == 3 {
            assert(static_values()[3] == (":path"@, "/index.html"@, 5usize));
            assert(rfc7541_static_table()[4] == (":path"@, Some("/index.html"@)));
        } else if i == 4 {
            assert(static_values()[4] == (":scheme"@, "http"@, 6usize));
            assert(rfc7541_static_table()[5] == (":scheme"@, Some("http"@)));
        } else if i == 5 {
            assert(static_values()[5] == (":scheme"@, "https"@, 7usize));
            assert(rfc7541_static_table()[6] == (":scheme"@, Some("https"@)));
        } else if i == 6 {
            assert(static_values()[6] == (":status"@, "200"@, 8usize));
            assert(rfc7541_static_table()[7] == (":status"@, Some("200"@)));
        } else if i == 7 {
            assert(static_values()[7] == (":status"@, "204"@, 9usize));
            assert(rfc7541_static_table()[8] == (":status"@, Some("204"@)));
        } else if i == 8 {
            assert(static_values()[8] == (":status"@, "206"@, 10usize));
            assert(rfc7541_static_table()[9] == (":status"@, Some("206"@)));
        } else if i == 9 {
            assert(static_values()[9] == (":status"@, "304"@, 11usize));
            assert(rfc7541_static_table()[10] == (":status"@, Some("304"@)));
        } else if i == 10 {
            assert(static_values()[10] == (":status"@, "400"@, 12usize));
            assert(rfc7541_static_table()[11] == (":status"@, Some("400"@)));
        } else if i == 11 {
            assert(static_values()[11] == (":status"@, "404"@, 13usize));
            assert(rfc7541_static_table()[12] == (":status"@, Some("404"@)));
        } else if i == 12 {
            assert(static_values()[12] == (":status"@, "500"@, 14usize));
            assert(rfc7541_static_table()[13] == (":status"@, Some("500"@)));
        } else if i == 13 {
            assert(static_values()[13] == ("accept-encoding"@, "gzip, deflate"@, 16usize));
            assert(rfc7541_static_table()[15] == ("accept-encoding"@, Some("gzip, deflate"@)));
        }
    }
}

/// The entries of the static table that hold a value, as
/// [`static_values`] lists them.
pub fn static_value_entries() -> (entries: [(&'static str, &'static str, usize); 14])
    ensures
        entries@.len() == static_values().len(),
        forall|i: int|
            0 <= i < 14 ==> (#[trigger] entries@[i]).0@ == static_values()[i].0 && entries@[i].1@
                == static_values()[i].1 && entries@[i].2 == static_values()[i].2,
{
    let entries: [(&'static str, &'static str, usize); 14] = [
        (":method", "GET", 2),
        (":method", "POST", 3),
        (":path", "/", 4),
        (":path", "/index.html", 5),
        (":scheme", "http", 6),
        (":scheme", "https", 7),
        (":status", "200", 8),
        (":status", "204", 9),
        (":status", "206", 10),
        (":status", "304", 11),
        (":status", "400", 12),
        (":status", "404", 13),
        (":status", "500", 14),
        ("accept-encoding", "gzip, deflate", 16),
    ];
    assert(entries@.len() == static_values().len());
    assert(forall|i: int|
        0 <= i < 14 ==> (#[trigger] entries@[i]).0@ == static_values()[i].0 && entries@[i].1@
            == static_values()[i].1 && entries@[i].2 == static_values()[i].2);
    entries
}

/// The index of the static table entry of `name` without value, if any.
pub fn static_name_index(name: &str) -> (idx: Option<usize>)
    ensures
        idx == static_index_of(name@),
{
    let names = static_name_entries();
    let mut i: usize = 0;
    while i < 47
        invariant
            i <= 47,
            names@.len() == 47,
            static_names().len() == 47,
            forall|k: int|
                0 <= k < 47 ==> (#[trigger] names@[k]).0@ == static_names()[k].0 && names@[k].1
                    == static_names()[k].1,
            forall|j: int| 0 <= j < i ==> static_names()[j].0 != name@,
        decreases 47 - i,
    {
        let (n, idx) = names[i];
        if str_eq(n, name) {
            assert(static_names()[i as int].0 == name@);
            let ghost c = choose|c: int|
                0 <= c < static_names().len() && static_names()[c].0 == name@ && forall|j: int|
                    0 <= j < c ==> static_names()[j].0 != name@;
            assert(c == i) by {
                if c < i {
                } else if c > i {
                    assert(static_names()[i as int].0 == name@);
                }
            }
            return Some(idx);
        }
        i = i + 1;
    }
    None
}

/// The pattern of a header field with incremental indexing whose name is
/// the static table entry `idx`: the integer with a 6-bit prefix, with the
/// representation's `01` pattern above it.
pub open spec fn indexed_name_pattern(idx: usize) -> Seq<u8> {
    let e = hpack_integer(idx as nat, 6);
    e.update(0, e[0] | 64u8)
}

/// For an index below 63, the pattern is a single byte: the `01` pattern of
/// a literal with incremental indexing in its two upper bits, the index in
/// the six lower ones.
pub proof fn lemma_indexed_name_pattern_decodes(idx: usize)
    requires
        idx < 63,
    ensures
        indexed_name_pattern(idx).len() == 1,
        indexed_name_pattern(idx)[0] & 0xc0u8 == 0x40u8,
        indexed_name_pattern(idx)[0] & 0x3fu8 == idx,
{
    assert(hpack_prefix_mask(6) == 63) by {
        vstd::arithmetic::power2::lemma2_to64();
    }
    let b = idx as u8;
    assert(hpack_integer(idx as nat, 6) == seq![b]);
    assert((b | 64u8) & 0xc0u8 == 0x40u8) by (bit_vector)
        requires
            b < 63,
    ;
    assert((b | 64u8) & 0x3fu8 == b) by (bit_vector)
        requires
            b < 63,
    ;
}

/// Matches header fields by their names, as indexed in the HPACK static
/// table, and captures their values.
pub struct Parser {
    /// The state a message is parsed from.
    pub s_init: u16,
    /// The state header patterns start from.
    pub s_any: u16,
    dfa: Dfa,
}

impl Parser {
    /// The DFA is well formed and holds both recorded states.
    pub closed spec fn wf(&self) -> bool {
        &&& self.dfa.wf()
        &&& self.dfa@.states.contains(self.s_any)
        &&& self.dfa@.states.contains(self.s_init)
    }

    /// What the DFA holds.
    pub closed spec fn dfa_model(&self) -> DfaModel {
        self.dfa@
    }

    /// The state patterns start from, as recorded.
    pub closed spec fn any_id(&self) -> u16 {
        self.s_any
    }

    /// The state messages are parsed from, as recorded.
    pub closed spec fn init_id(&self) -> u16 {
        self.s_init
    }

    /// Creates a parser without patterns whose reserved states are `s_init`
    /// and `s_any`.
    pub fn new(s_init: u16, s_any: u16) -> (p: Parser)
        ensures
            p.wf(),
            p.init_id() == s_init,
            p.any_id() == s_any,
            p.dfa_model().sid == 0,
            p.dfa_model().cid == 0,
            p.dfa_model().states == set![s_init, s_any],
            p.dfa_model().transitions == Map::<(u16, u8), (u16, Action)>::empty(),
    {
        let dfa = Dfa::new(vec![s_init, s_any]);
        proof {
            assert(seq![s_init, s_any].to_set() =~= set![s_init, s_any]) by {
                assert(seq![s_init, s_any][0] == s_init);
                assert(seq![s_init, s_any][1] == s_any);
            }
        }
        Parser { s_init, s_any, dfa }
    }

    /// Captures the value of the header field `key` where its name is
    /// indexed in the static table: the pattern is the name's index, as a
    /// literal with incremental indexing, followed from the state patterns
    /// start from. A name the static table lacks (with no value) adds
    /// nothing.
    pub fn match_http_hdr(&mut self, key: &str) -> (r: Result<(), CaptureError>)
        requires
            old(self).wf(),
        ensures
            final(self).wf(),
            final(self).any_id() == old(self).any_id(),
            final(self).init_id() == old(self).init_id(),
            static_index_of(key@) is None ==> r is Ok && final(self).dfa_model() == old(
                self,
            ).dfa_model(),
            static_index_of(key@) matches Some(idx) ==> {
                &&& (r == Err::<(), CaptureError>(CaptureError::TooManyCaptures)) <==> old(self).dfa_model().cid
                    == u8::MAX
                &&& (r == Err::<(), CaptureError>(CaptureError::TooManyStates)) <==> old(self).dfa_model().cid
                    < u8::MAX && !has_room(old(self).dfa_model(), 1)
                &&& r is Ok <==> old(self).dfa_model().cid < u8::MAX && has_room(
                    old(self).dfa_model(),
                    1,
                )
                &&& r is Ok ==> capture_pattern(
                    old(self).dfa_model(),
                    old(self).any_id(),
                    indexed_name_pattern(idx),
                ) == Some(final(self).dfa_model())
                &&& r is Err ==> final(self).dfa_model() == old(self).dfa_model()
            },
            r matches Err(e) ==> e == CaptureError::TooManyCaptures || e
                == CaptureError::TooManyStates,
    {
        match static_name_index(key) {
            None => Ok(()),
            Some(idx) => {
                assert(static_names()[0].1 == 1usize);
                assert(forall|i: int|
                    0 <= i < static_names().len() ==> #[trigger] static_names()[i].1 <= 61);
                assert(idx <= 61);
                let mut idx_encoded = encode_integer(idx, 6);
                assert(hpack_prefix_mask(6) == 63) by {
                    vstd::arithmetic::power2::lemma2_to64();
                }
                let first = idx_encoded[0] | 64u8;
                idx_encoded.set(0, first);
                assert(idx_encoded@ == indexed_name_pattern(idx));
                assert(idx_encoded@.len() == 1);
                if self.dfa.next_capture_id() == u8::MAX {
                    return Err(CaptureError::TooManyCaptures);
                }
                let bound = self.dfa.state_bound();
                if bound >= 0x10000 {
                    return Err(CaptureError::TooManyStates);
                }
                let ghost b0 = BuilderModel { dfa: self.dfa@, sid: self.s_any, prev_trans: None };
                proof {
                    lemma_push_within_bound(b0, idx_encoded@, bound as int);
                    lemma_push_matches(b0, idx_encoded@);
                }
                let mut dfa = Dfa::new(Vec::new());
                std::mem::swap(&mut dfa, &mut self.dfa);
                let mut b = dfa.start_pattern(self.s_any);
                b.push(idx_encoded.as_slice()).capture_field_value();
                self.dfa = b.finish();
                Ok(())
            },
        }
    }

    /// Returns the states of the DFA, each once.
    pub fn iter_states(&self) -> (states: Vec<u16>)
        requires
            self.wf(),
        ensures
            states@.to_set() == self.dfa_model().states,
            states@.no_duplicates(),
            states@.contains(self.init_id()),
            states@.contains(self.any_id()),
    {
        self.dfa.iter_states()
    }

    /// Returns the transitions of the DFA, each as (source, target, input,
    /// action).
    pub fn iter_transitions(&self) -> (t: Vec<(u16, u16, u8, Action)>)
        requires
            self.wf(),
        ensures
            self.dfa_model().lists_transitions(t@),
    {
        self.dfa.iter_transitions()
    }
}

} // verus!
