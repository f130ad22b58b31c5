# undertow-protocol

Core library of the Undertow peer-to-peer protocol, verified with Verus.

`src/` is the verified library:

- `protocol`: the packet wire format (magic, version, type, length, payload,
  CRC-32) with its encode/decode laws, peer ids (32-byte Ed25519 endpoint keys,
  hex text), SHA-256 and X25519 key pairs.
- `network`: socket addresses and their text form, peers and their binary
  encoding, XOR distance, k-buckets and the 256-bucket routing table, the LAN
  peer table that decides what each multicast message does, LAN broadcast
  messages, STUN binding requests and responses, NAT classification and the
  connection strategy, local address rules.
- `storage`: configuration paths, profiles (username rules, key text).
- `text`, `wire`: hexadecimal text, trimming and big-endian integers.

Calls into outside crates (crc32fast, sha2, x25519-dalek, iroh, hex, rand,
dirs) sit behind small trusted functions whose contracts say what the
library relies on.

`app/` holds the I/O around it: the Iroh transport and beacon client, the
multicast and broadcast loops, STUN queries, the TCP relay and node, and the
profile file. `tests/` exercises the library on concrete values.
