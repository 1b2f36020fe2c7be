# lite-mc-ping

Minimal Minecraft **Java Edition (1.7+)** server list ping, verified with Verus.

```text
Client → Server: Handshake    (0x00) protocol, host, port, next_state=1
Client → Server: Status req   (0x00)
Server → Client: Status resp  (0x00) JSON: version / players / description …
Client → Server: Ping         (0x01) i64 timestamp           [optional]
Server → Client: Pong         (0x01) same timestamp          [optional]
```

## Layout

`src/` is the library. It does no I/O, and every function in it but for the trusted
wrappers is verified against its contract.

| Module | What it holds |
| --- | --- |
| `models`, `ip`, `text` | addresses and how they are written, options, results |
| `wire`, `protocol` | VarInts, packets, frames |
| `srv`, `resolve` | the choice among SRV records, and what it makes of an address |
| `session` | the decisions of one ping, as a state machine |
| `chat`, `style`, `json` | Chat components to `§`-coded legacy text and plain text |
| `client` | a model of the client that reads the codes, and what it makes of them |
| `*_laws` | what holds across functions, as public proof functions |

`app/` is the async crate around it: DNS, TCP, the clock, and serde.

`tests/` runs the library on concrete values, with the outside crates it calls.

## What is trusted

A few calls leave the library, each with a small contract that says what is taken
for granted of it: the VarInt codec of `varint`, the random draws of
`rand`, the record data and domain names of `hickory-resolver`, how `serde_json`
prints, clones and compares numbers, and how std appends a character to a string, prints a
quoted string and spans a number of seconds. The outside types that are carried
along are declared and never looked into.

## Design notes

| Decision | Why |
| --- | --- |
| `varint` crate, unsigned methods only | Its signed methods are zigzag, not Minecraft's two's-complement VarInt (protocol `-1` → `FF FF FF FF 0F`) |
| Stateful legacy output | `§` codes persist until changed and a style can only be cleared by `§r`, so the writer tracks the state a client is in and emits a reset only when an attribute has to be dropped |
| A lone `§` is completed | Component text goes out verbatim, so where it ends in a `§` that waits for its code, the next run writes `r` alone and the two make the reset |
| Hosts in brackets | A parsed address displays as a text that parses to it again, so a host that would be misread without brackets gets them, as an IPv6 literal does. A host that no text denotes, such as one that would need brackets and holds `]`, is written as it is |
| Hex colors downgraded | `#rrggbb` maps to the nearest of the 16 legacy colors, as the format carries no 24-bit color |
| SRV only fills in what was left out | An explicit port or IP literal is used as-is: a record could only contradict the caller |
| Latency is best-effort | The status is the valuable part of a ping, so a failed ping/pong reports no latency instead of discarding a parsed status |
| RFC 2782 SRV selection | Weighted-random within the lowest-priority group; uniform when all weights are 0; root (`"."`) targets skipped |
