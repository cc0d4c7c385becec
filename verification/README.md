# span

A LAN clipboard-sharing tool for desktop machines: devices announce
themselves over UDP, the user trusts the ones it wants, and every text copied
on one machine is encrypted (X25519, HKDF-SHA256, XChaCha20-Poly1305) and sent
over TCP to each trusted device.

`src/` is the verified library (Verus):

| module | contents |
|---|---|
| `device` | device ids, platforms, trust states, device records, clipboard text, the broadcast rule |
| `config` | the local device record, platform names, the saved record format |
| `hex` | hex encoding and the decoder's exact behaviour |
| `crypto` | key pairs and the key two devices agree on |
| `transport` | encrypting clipboard text and the text frame |
| `discovery`, `span_discovery` | the two announcement dialects and the probe |
| `sync` | the clipboard-watching decisions, echo suppression, delivery targets, the announce schedule |
| `manager` | pairing candidates and outcomes, selection after reload, removal, the manager's controls, which senders' text is accepted |
| `ui` | labels, summaries, XML escaping, UTF-16 text, DPI scaling |
| `text` | whitespace, trimming, splitting, string building |
| `primitives` | the calls into the cryptography crates and `std` |
| `error` | the library's errors |

`app/` is the `span` command: the sockets, files, processes and autostart
entries around the library, the daemon and receiver loops, and the device
manager's flows around its dialogs. `tests/` exercises the library.
