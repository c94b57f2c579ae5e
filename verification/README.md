# beeline

The pattern compilers of an application-layer parser for eBPF, verified
with Verus. Header patterns are compiled into DFAs whose transition tables
the parser programs in the kernel walk byte by byte; this crate builds those
DFAs and lays out the tables, and proves what they hold.

- `src/h1`: the HTTP/1.x DFA over characters (case-insensitive patterns,
  optional strings, captures, restarts), its laws, and the HTTP/1.1 parser
  configuration.
- `src/h2`: the HTTP/2 DFA over Huffman-coded bytes, its laws, and the
  HTTP/2 parser configuration with its static table records.
- `src/preface.rs`: the HTTP/2 connection preface pattern and the encoding
  of a DFA into the parser program's table.
- `src/indexing.rs`: capturing header fields by their HPACK static-table
  index.
- `src/fastpath.rs`: the responses and routing table of the example
  server's kernel fast path.
- `src/bpf.rs`: addresses as the BPF programs compare them.
- `app/main.rs`: the example static file server.

## Collections

Where a collection is keyed by an integer, it is the standard one, verified
through vstd's specifications: the HTTP/2 DFA's states are a
`HashSet<u16>`, the HTTP/1.x DFA's actions a `HashMap<u16, Action>` keyed by
state id. The transition tables of both DFAs are keyed by a pair (a state
and an input); vstd specifies hash maps only for integer (and boxed) keys,
so these are vectors of key-value pairs with no key twice, read as maps. A
pair packed into an integer key would serve too, but the listing of
transitions states their number as that of the map's keys, which would then
have to be carried through the packing; the vectors keep it direct.
