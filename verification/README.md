# sparkplug_b

Eclipse Sparkplug B 3.0.0 in Rust, with machine-checked contracts.

`src/` is the library, its code checked against its contracts:

| Module | What it holds |
|--------|---------------|
| `model`, `value`, `datatype` | the payload model, its tagged values and the 35 data types, each with a view |
| `codec` | the proto2 codec: `encode` is specified by field lists (`codec::fields`), `decode` by step functions over the token stream (`codec::parse`); `codec::roundtrip` proves `decode(encode(p)) == p` for well-formed payloads, with datatypes kept or stripped |
| `topic` | topic parsing and formatting, with both round trips proved |
| `sequence` | the `seq`/`bdSeq` counters and the bdSeq store text format |
| `alias` | the name ↔ alias ↔ datatype registry |
| `state` | the STATE JSON payload, with `parse(to_json(s)) == s` proved |
| `compress` | the DEFLATE/GZIP envelope around `flate2`: `compress` always succeeds, and every envelope it returns opens back to its payload (proved from the wrappers' contracts) |
| `text`, `util` | string helpers the above share |

`app/` holds what talks to the outside world: the file-backed bdSeq store, the
async MQTT transport trait, and an error type with `Display`.

`tests/` exercises the library on concrete values.
