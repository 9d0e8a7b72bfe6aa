# spfquery

A command-line tool that checks whether an IP address is authorized to send mail
for a domain under its SPF policy (RFC 7208), and shows the resolution as a tree.

The SPF logic is a library verified with Verus:

- `src/spf.rs` — the SPF record parser (terms, qualifiers, mechanisms, modifiers, CIDR forms).
- `src/net.rs`, `src/matcher.rs` — IPv4/IPv6 networks and address matching.
- `src/dns.rs` — DNS queries and answers as plain values; SPF texts of TXT answers,
  MX sorting, trailing-dot removal, the lookup counter.
- `src/resolver.rs` — the recursive evaluator: `include`, `a`, `mx`, `ip4`, `ip6`,
  `ptr`, `exists`, `all`, `redirect=`, `exp=`, the 10-lookup limit and circular
  `include` detection. It is a function of the DNS answers received so far: it
  either completes or names the next lookup it needs.
- `src/replay.rs` — a completed check does not depend on answers it did not ask for.
- `src/round_trip.rs` — the text of an `a`/`mx` mechanism parses back to the same mechanism.
- `src/sgr.rs` — removing the colour escape sequences from a coloured tree gives the plain one.
- `src/tree.rs`, `src/paint.rs` — the resolution tree and its (coloured) rendering.
- `src/text.rs`, `src/error.rs` — string helpers and the error type.

`app/` is the program around it: argument parsing (clap), the DNS lookups
(hickory-resolver on tokio), and printing.

```
spfquery --domain <domain> --ip <address> [--no-color]
```
