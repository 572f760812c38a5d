# embassy_dns

A DNS client for embedded network stacks, verified with [Verus](https://github.com/verus-lang/verus).

The library in `src/` keeps names in canonical wire format, turns the answers of a
socket into owned values, iterates over them, and decides which queries a host name
lookup makes and what their outcome means. It does no I/O.

- `labels`: names as sequences of labels, and their wire format
- `text`: names as text
- `wire`: names inside DNS messages, read by `smoltcp`
- `name`: owned names, stored in a `heapless` vector
- `address`: addresses and address literals
- `answer`: answers to queries
- `iter`: iteration over the answers of a query, and the release of its slot
- `socket`: queries and host name lookups
- `error`: errors

`app/` runs the library on a `smoltcp` interface and offers it through the traits of
`embedded-nal-async`. The DNS socket of `smoltcp` 0.14 hands out address records only,
so a PTR or SRV query ends there with an error; the library handles such answers from
any source.
