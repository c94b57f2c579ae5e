//! The fast path of the example server: requests for a few static assets
//! are answered from a table of pre-rendered responses that the BPF program
//! holds, before they reach user space.
use vstd::prelude::*;
use crate::bpf::{SocketAddress, TryIntoRawOctets, u32_from_be, u32_from_le};
use vstd::string::StrSliceExecFns;
use vstd::string::StringExecFns;

verus! {

/// The most routes the BPF program holds.
pub const MAX_ROUTES: usize = 16;

/// The longest request path of a route, in bytes.
pub const MAX_ROUTE_PATH: usize = 128;

/// The longest response of a route, in bytes.
pub const MAX_ROUTE_BODY: usize = 4096;

/// The request paths of the assets the page is made of.
pub open spec fn fastpath_assets() -> Seq<Seq<char>> {
    seq![
        "/index.html"@,
        "/style.css"@,
        "/script.js"@,
        "/honeycomb.png"@,
        "/rings.png"@,
        "/stripes.png"@,
    ]
}

/// Every asset the page is made of, offered to the fast path as a whole:
/// each request path with the file it is served from, `assets_dir` followed
/// by the path.
pub fn fastpath_routes(assets_dir: &str) -> (routes: Vec<(String, String)>)
    ensures
        routes@.len() == fastpath_assets().len(),
        forall|i: int|
            0 <= i < routes@.len() ==> #[trigger] routes@[i].0@ == fastpath_assets()[i]
                && routes@[i].1@ == assets_dir@ + fastpath_assets()[i],
{
    let paths: [&str; 6] = [
        "/index.html",
        "/style.css",
        "/script.js",
        "/honeycomb.png",
        "/rings.png",
        "/stripes.png",
    ];
    assert(paths@.len() == 6);
    assert(forall|i: int| 0 <= i < 6 ==> #[trigger] paths@[i]@ == fastpath_assets()[i]);
    let mut routes: Vec<(String, String)> = Vec::new();
    let mut i: usize = 0;
    while i < 6
        invariant
            i <= 6,
            paths@.len() == 6,
            forall|j: int| 0 <= j < 6 ==> #[trigger] paths@[j]@ == fastpath_assets()[j],
            routes@.len() == i,
            forall|j: int|
                0 <= j < i ==> #[trigger] routes@[j].0@ == fastpath_assets()[j] && routes@[j].1@
                    == assets_dir@ + fastpath_assets()[j],
        decreases 6 - i,
    {
        let path = paths[i];
        let mut file = assets_dir.to_owned();
        file.append(path);
        routes.push((path.to_owned(), file));
        i = i + 1;
    }
    routes
}

/// The bytes of the characters of `s`, each taken as a byte.
pub open spec fn ascii_bytes(s: Seq<char>) -> Seq<u8> {
    s.map_values(|c: char| c as u8)
}

/// The decimal digits of `n`, as ASCII bytes.
pub open spec fn decimal(n: nat) -> Seq<u8>
    decreases n,
{
    if n < 10 {
        seq![(48 + n) as u8]
    } else {
        decimal(n / 10).push((48 + n % 10) as u8)
    }
}

/// The number that the ASCII decimal digits `s` stand for, the most
/// significant first.
pub open spec fn decimal_value(s: Seq<u8>) -> int
    decreases s.len(),
{
    if s.len() == 0 {
        0
    } else {
        decimal_value(s.drop_last()) * 10 + (s.last() - 48)
    }
}

/// The digits of `n` are ASCII decimal digits, the first of them no zero
/// unless `n` is, and they read back as `n`.
pub proof fn lemma_decimal_reads_back(n: nat)
    ensures
        decimal(n).len() > 0,
        forall|i: int| 0 <= i < decimal(n).len() ==> 48 <= #[trigger] decimal(n)[i] <= 57,
        decimal(n)[0] != 48 || n == 0,
        decimal_value(decimal(n)) == n,
    decreases n,
{
    if n >= 10 {
        lemma_decimal_reads_back(n / 10);
        let d = decimal(n / 10);
        assert(decimal(n).drop_last() =~= d);
        assert(decimal(n)[0] == d[0]);
        vstd::arithmetic::div_mod::lemma_fundamental_div_mod(n as int, 10);
        assert(0 <= n % 10 < 10);
        assert(decimal(n).last() == 48 + n % 10);
        assert(decimal_value(decimal(n)) == decimal_value(d) * 10 + (n % 10));
        assert(decimal_value(d) == n / 10);
    } else {
        let x = seq![(48 + n) as u8];
        assert(x.drop_last() =~= Seq::<u8>::empty());
        assert(x.last() == 48 + n);
        assert(decimal_value(x) == decimal_value(x.drop_last()) * 10 + (x.last() - 48));
    }
}

fn push_ascii(out: &mut Vec<u8>, s: &str)
    ensures
        final(out)@ == old(out)@ + ascii_bytes(s@),
{
    let n = s.unicode_len();
    let mut i: usize = 0;
    while i < n
        invariant
            n == s@.len(),
            i <= n,
            out@ == old(out)@ + ascii_bytes(s@.take(i as int)),
        decreases n - i,
    {
        let c = s.get_char(i);
        out.push(c as u8);
        i = i + 1;
        assert(s@.take(i as int) =~= s@.take(i - 1).push(c));
        assert(ascii_bytes(s@.take(i as int)) =~= ascii_bytes(s@.take(i - 1)).push(c as u8));
    }
    assert(s@.take(n as int) =~= s@);
}

fn push_decimal(out: &mut Vec<u8>, n: usize)
    ensures
        final(out)@ == old(out)@ + decimal(n as nat),
    decreases n,
{
    if n >= 10 {
        push_decimal(out, n / 10);
    }
    let digit = (n % 10) as u8;
    out.push(48 + digit);
    assert(out@ =~= old(out)@ + decimal(n as nat));
}

/// Whether `a` and `b` hold the same characters.
pub(crate) fn str_eq(a: &str, b: &str) -> (r: bool)
    ensures
        r == (a@ == b@),
{
    let n = a.unicode_len();
    if n != b.unicode_len() {
        return false;
    }
    let mut i: usize = 0;
    while i < n
        invariant
            n == a@.len(),
            n == b@.len(),
            i <= n,
            forall|j: int| 0 <= j < i ==> a@[j] == b@[j],
        decreases n - i,
    {
        if a.get_char(i) != b.get_char(i) {
            return false;
        }
        i = i + 1;
    }
    assert(a@ =~= b@);
    true
}

/// The content type of a file with extension `ext`.
pub open spec fn content_type(ext: Option<Seq<char>>) -> Seq<char> {
    match ext {
        Some(e) => if e == "html"@ {
            "text/html; charset=utf-8"@
        } else if e == "js"@ {
            "application/javascript"@
        } else if e == "css"@ {
            "text/css"@
        } else if e == "json"@ {
            "application/json"@
        } else {
            "application/octet-stream"@
        },
        None => "application/octet-stream"@,
    }
}

/// The view of an optional string.
pub open spec fn opt_view(s: Option<&str>) -> Option<Seq<char>> {
    match s {
        Some(s) => Some(s@),
        None => None,
    }
}

/// The status line and header fields of the response to an asset of
/// content type `ct` and `len` bytes, up to the empty line.
pub open spec fn response_head(ct: Seq<char>, len: nat) -> Seq<u8> {
    ascii_bytes("HTTP/1.1 200 OK\r\nContent-Length: "@) + decimal(len) + ascii_bytes(
        "\r\nContent-Type: "@,
    ) + ascii_bytes(ct) + ascii_bytes("\r\nConnection: keep-alive\r\n\r\n"@)
}

/// Renders the full HTTP/1.1 response (status line, headers and body) that
/// the fast path serves verbatim for an asset whose file has extension
/// `extension` and holds `body`.
pub fn render_response(extension: Option<&str>, body: &[u8]) -> (resp: Vec<u8>)
    ensures
        resp@ == response_head(content_type(opt_view(extension)), body@.len()) + body@,
{
    let ct = match extension {
        Some(ext) => if str_eq(ext, "html") {
            "text/html; charset=utf-8"
        } else if str_eq(ext, "js") {
            "application/javascript"
        } else if str_eq(ext, "css") {
            "text/css"
        } else if str_eq(ext, "json") {
            "application/json"
        } else {
            "application/octet-stream"
        },
        None => "application/octet-stream",
    };
    assert(ct@ == content_type(opt_view(extension)));
    let mut resp: Vec<u8> = Vec::new();
    push_ascii(&mut resp, "HTTP/1.1 200 OK\r\nContent-Length: ");
    push_decimal(&mut resp, body.len());
    push_ascii(&mut resp, "\r\nContent-Type: ");
    push_ascii(&mut resp, ct);
    push_ascii(&mut resp, "\r\nConnection: keep-alive\r\n\r\n");
    let ghost head = resp@;
    assert(head =~= response_head(content_type(opt_view(extension)), body@.len()));
    let mut i: usize = 0;
    while i < body.len()
        invariant
            i <= body@.len(),
            resp@ == head + body@.take(i as int),
        decreases body@.len() - i,
    {
        resp.push(body[i]);
        i = i + 1;
        assert(body@.take(i as int) =~= body@.take(i - 1).push(body@[i - 1]));
        assert(resp@ =~= head + body@.take(i as int));
    }
    assert(body@.take(body@.len() as int) =~= body@);
    resp
}

/// A route as the BPF program holds it: the request path and the response,
/// each zero padded to its fixed size, with its length.
pub struct Route {
    pub path: Vec<u8>,
    pub path_len: u32,
    pub body: Vec<u8>,
    pub body_len: u32,
}

/// The routing table of the BPF program.
pub struct RouteTable {
    pub num_routes: u32,
    pub routes: Vec<Route>,
}

/// Why a set of routes does not fit the BPF program.
#[derive(Debug)]
pub enum RouteError {
    /// More routes than the table holds; the number of routes.
    TooManyRoutes(usize),
    /// A request path longer than [`MAX_ROUTE_PATH`] bytes; the path.
    PathTooLong(String),
    /// A response longer than [`MAX_ROUTE_BODY`] bytes; its request path.
    BodyTooLong(String),
}

/// The bytes of a request path.
pub open spec fn path_bytes(path: Seq<char>) -> Seq<u8> {
    vstd::utf8::encode_utf8(path)
}

/// `s` followed by zeros up to `n` bytes.
pub open spec fn zero_padded(s: Seq<u8>, n: nat) -> Seq<u8> {
    s + Seq::new((n - s.len()) as nat, |i: int| 0u8)
}

/// Whether the route of request path `path` and response `body` fits.
pub open spec fn route_fits(path: Seq<char>, body: Seq<u8>) -> bool {
    path_bytes(path).len() <= MAX_ROUTE_PATH && body.len() <= MAX_ROUTE_BODY
}

/// Whether route `r` (a request path with its response) fits.
pub open spec fn fits(r: (String, Vec<u8>)) -> bool {
    route_fits(r.0@, r.1@)
}

/// Whether route `r` does not fit.
pub open spec fn does_not_fit(r: (String, Vec<u8>)) -> bool {
    !route_fits(r.0@, r.1@)
}

/// Whether `e` says why route `r` is declined: its path is too long, or
/// else its response.
pub open spec fn declines(e: RouteError, r: (String, Vec<u8>)) -> bool {
    if path_bytes(r.0@).len() > MAX_ROUTE_PATH {
        e matches RouteError::PathTooLong(p) && p@ == r.0@
    } else {
        e matches RouteError::BodyTooLong(p) && p@ == r.0@
    }
}

/// Whether `r` holds route (`path`, `body`).
pub open spec fn holds_route(r: Route, path: Seq<char>, body: Seq<u8>) -> bool {
    &&& r.path@ == zero_padded(path_bytes(path), MAX_ROUTE_PATH as nat)
    &&& r.path_len == path_bytes(path).len()
    &&& r.body@ == zero_padded(body, MAX_ROUTE_BODY as nat)
    &&& r.body_len == body.len()
}

/// `bytes` zero padded to `n` bytes.
fn padded(bytes: &[u8], n: usize) -> (v: Vec<u8>)
    requires
        bytes@.len() <= n,
    ensures
        v@ == zero_padded(bytes@, n as nat),
{
    let mut v: Vec<u8> = Vec::new();
    let mut i: usize = 0;
    while i < n
        invariant
            bytes@.len() <= n,
            i <= n,
            v@.len() == i,
            forall|j: int| 0 <= j < i ==> #[trigger] v@[j] == zero_padded(bytes@, n as nat)[j],
        decreases n - i,
    {
        if i < bytes.len() {
            v.push(bytes[i]);
        } else {
            v.push(0);
        }
        i = i + 1;
    }
    assert(v@ =~= zero_padded(bytes@, n as nat));
    v
}

/// Whether `t` lays out the routes of `routes` that fit, in order, and
/// `declined` says why each of the others is declined, in order.
pub open spec fn lays_out(routes: Seq<(String, Vec<u8>)>, t: RouteTable, declined: Seq<RouteError>) -> bool {
    let kept = routes.filter(|x: (String, Vec<u8>)| fits(x));
    let dropped = routes.filter(|x: (String, Vec<u8>)| does_not_fit(x));
    &&& t.num_routes == kept.len()
    &&& t.routes@.len() == kept.len()
    &&& forall|i: int|
        0 <= i < kept.len() ==> #[trigger] holds_route(t.routes@[i], kept[i].0@, kept[i].1@)
    &&& declined.len() == dropped.len()
    &&& forall|i: int| 0 <= i < dropped.len() ==> #[trigger] declines(declined[i], dropped[i])
}

/// Lays out `routes`, each a request path with its rendered response, as
/// the routing table of the BPF program. Fails if there are more than
/// [`MAX_ROUTES`] routes. Otherwise the routes that fit are laid out, in
/// order, and each route whose path is longer than [`MAX_ROUTE_PATH`] bytes
/// or whose response is longer than [`MAX_ROUTE_BODY`] bytes is declined,
/// with the reason (the path being checked first), in order.
pub fn build_route_table(routes: &Vec<(String, Vec<u8>)>) -> (r: Result<
    (RouteTable, Vec<RouteError>),
    RouteError,
>)
    ensures
        r is Err <==> routes@.len() > MAX_ROUTES,
        r matches Err(e) ==> e matches RouteError::TooManyRoutes(n) && n == routes@.len(),
        r matches Ok((t, declined)) ==> lays_out(routes@, t, declined@),
{
    if routes.len() > MAX_ROUTES {
        return Err(RouteError::TooManyRoutes(routes.len()));
    }
    let ghost pf = |x: (String, Vec<u8>)| fits(x);
    let ghost pd = |x: (String, Vec<u8>)| does_not_fit(x);
    let mut table: Vec<Route> = Vec::new();
    let mut declined: Vec<RouteError> = Vec::new();
    let mut i: usize = 0;
    while i < routes.len()
        invariant
            routes@.len() <= MAX_ROUTES,
            i <= routes@.len(),
            pf == (|x: (String, Vec<u8>)| fits(x)),
            pd == (|x: (String, Vec<u8>)| does_not_fit(x)),
            table@.len() == routes@.take(i as int).filter(pf).len(),
            forall|j: int|
                0 <= j < table@.len() ==> #[trigger] holds_route(
                    table@[j],
                    routes@.take(i as int).filter(pf)[j].0@,
                    routes@.take(i as int).filter(pf)[j].1@,
                ),
            declined@.len() == routes@.take(i as int).filter(pd).len(),
            forall|j: int|
                0 <= j < declined@.len() ==> #[trigger] declines(
                    declined@[j],
                    routes@.take(i as int).filter(pd)[j],
                ),
        decreases routes@.len() - i,
    {
        let ghost prev = routes@.take(i as int);
        let ghost next = routes@.take(i + 1);
        proof {
            assert(next.drop_last() =~= prev);
            assert(next.last() == routes@[i as int]);
            reveal(Seq::filter);
            assert(next.filter(pf) == if pf(routes@[i as int]) {
                prev.filter(pf).push(routes@[i as int])
            } else {
                prev.filter(pf)
            });
            assert(next.filter(pd) == if pd(routes@[i as int]) {
                prev.filter(pd).push(routes@[i as int])
            } else {
                prev.filter(pd)
            });
        }
        let path = &routes[i].0;
        let body = &routes[i].1;
        let pb = path.as_str().as_bytes();
        assert(pb@ == path_bytes(routes@[i as int].0@));
        if pb.len() > MAX_ROUTE_PATH {
            declined.push(RouteError::PathTooLong(path.clone()));
        } else if body.len() > MAX_ROUTE_BODY {
            declined.push(RouteError::BodyTooLong(path.clone()));
        } else {
            let route = Route {
                path: padded(pb, MAX_ROUTE_PATH),
                path_len: pb.len() as u32,
                body: padded(body.as_slice(), MAX_ROUTE_BODY),
                body_len: body.len() as u32,
            };
            table.push(route);
        }
        i = i + 1;
    }
    proof {
        assert(routes@.take(routes@.len() as int) =~= routes@);
        routes@.lemma_filter_len(pf);
    }
    let num_routes = table.len() as u32;
    Ok((RouteTable { num_routes, routes: table }, declined))
}

/// What the fast path of a server is configured with.
pub struct FastPathConfig {
    /// The IPv4 address the server listens on, as the BPF program compares
    /// it (see [`TryIntoRawOctets`]).
    pub ip4: u32,
    /// The port the server listens on.
    pub port: u32,
    /// The routing table.
    pub table: RouteTable,
    /// The routes that do not fit the table, with the reason.
    pub declined: Vec<RouteError>,
}

/// Why the fast path cannot be configured.
#[derive(Clone, Copy, Debug, PartialEq, Eq, Structural)]
pub enum AttachError {
    /// More routes than the table holds; the number of routes.
    TooManyRoutes(usize),
    /// The server does not listen on an IPv4 address.
    UnsupportedAddressFamily,
}

/// Configures the fast path of a server listening on `address` that
/// answers `routes`, each a request path with its rendered response. Fails
/// if there are more than [`MAX_ROUTES`] routes, or else if the address is
/// not an IPv4 one. Otherwise the routes that fit are laid out and the
/// others declined, as [`build_route_table`] does.
pub fn configure(address: &SocketAddress, routes: &Vec<(String, Vec<u8>)>) -> (r: Result<
    FastPathConfig,
    AttachError,
>)
    ensures
        r == Err::<FastPathConfig, AttachError>(AttachError::TooManyRoutes(routes@.len() as usize))
            <==> routes@.len() > MAX_ROUTES,
        r == Err::<FastPathConfig, AttachError>(AttachError::UnsupportedAddressFamily) <==> routes@.len()
            <= MAX_ROUTES && address.ipv4_octets() is None,
        r is Ok <==> routes@.len() <= MAX_ROUTES && address.ipv4_octets() is Some,
        r matches Err(e) ==> e == AttachError::TooManyRoutes(routes@.len() as usize) || e
            == AttachError::UnsupportedAddressFamily,
        r matches Ok(c) ==> {
            &&& address.ipv4_octets() matches Some(o) && (c.ip4 == u32_from_le(o) || c.ip4
                == u32_from_be(o))
            &&& c.port == address.port
            &&& lays_out(routes@, c.table, c.declined@)
        },
{
    if routes.len() > MAX_ROUTES {
        return Err(AttachError::TooManyRoutes(routes.len()));
    }
    let ip4 = match address.try_into_ne_octets() {
        Ok(ip4) => ip4,
        Err(_) => {
            return Err(AttachError::UnsupportedAddressFamily);
        },
    };
    match build_route_table(routes) {
        Ok((table, declined)) => Ok(FastPathConfig { ip4, port: address.port as u32, table, declined }),
        Err(_) => Err(AttachError::TooManyRoutes(routes.len())),
    }
}

} // verus!
