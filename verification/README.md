# copernica

An information-centric networking protocol: content is named by
hierarchical bloom filter indices, requests are routed by bloom filters kept
per link, and responses flow back along the links the requests came from.

`src/` is the library, written in Verus: every function carries a contract
that the verifier checks.

- `packets/` – names (`BFI`, `HBFI`), identities, reply-to addresses, data
  fragments and the byte forms of each.
- `node/` – the routing node: bloom filters, links, the router's decision
  on each packet, the registry of links, packing of directories, names of
  the form `id::name::seq`, and password-protected identities.
- `links/` – Reed-Solomon framing of frames, the kinds of address each link
  accepts, and a link that damages frames on purpose.
- `protocols/` – the layout of published files in frames, the pacing of
  requests for frame ranges (congestion window, retries, reliability), the
  echo protocol and the file transfer protocol's answers.
- `services/` – fetching a range of frames one by one.
- `monitor/` – reading graphviz plain-ext lines, and checking a network's
  log against the expected events.

`app/` holds what moves bytes around the library: threads, channels, UDP
sockets, the directory walk, the response store and the floating-point
parsing of graph lines.

`tests/` exercises the library on concrete values.
