# wherever

Send a link from a phone to a computer and have it opened there. Clients encrypt each link to
the server's X25519 key in a one-message Noise `X` handshake, prefixed with an increasing
sequence number; the server trusts a client key on first use (after asking the user) and
refuses replayed or stale sequence numbers. A relay forwards messages to servers that are
not directly reachable, and pairs devices through short word phrases.

- `src/` — the verified library: message framing and decryption (`crypto`), the relay's
  handshake and transport cipher (`relay`), the trust table and its saved form (`tofu`,
  `text`), the relay's discovery slots (`discovery`), phrase handling (`phrase`), websocket
  frames (`message`), server decisions (`server`), and the encodings they use (`codec`).
- `app/` — the server program, the browser and Android clients, and the websocket and file
  plumbing around the library.
- `tests/` — tests of the library on concrete values.
