# hoshi

The verified core of Hoshi, a peer-to-peer messenger with voice calls, written in
Verus. Each public function states what it returns in `requires` / `ensures`, and
Verus proves the code against it.

## Layout

- `src/` — the library, all of it verified:
  - `store.rs`, `hash_cache.rs`, `store_file.rs`: hash-chained record stores, the cache
    of their chain hashes, their sync protocol, and the framing of their files;
  - `record.rs`, `contact.rs`, `chat.rs`, `node.rs`: records, contacts, chat messages and
    the paths (`/user/…`, `/chat/…`) of the stores;
  - `call.rs`, `calls.rs`, `audio_chunk.rs`, `audio.rs`: the call state machine, the list
    of calls a client is in, μ-law audio and the audio buffers;
  - `net.rs`, `relay.rs`, `connection.rs`, `wire.rs`: messages between clients, relay
    pipes and the relay and control-plane wire forms;
  - `identity.rs`, `noise.rs`, `config.rs`: keys, the identity's certificate, Noise
    handshakes and client settings;
  - `control_plane.rs`: the control plane's checks of what clients and relays send, and
    its registry of relays;
  - `client.rs`, `bots.rs`: the client's decisions and the bots' audio streams;
  - `text.rs`, `ids.rs`, `digest.rs`, `clock.rs`: text, UUIDs, digests, time and chance.
- `tests/` — tests that run the library.
- `app/` — the command-line start-up around the library: arguments, files on disk, and
  what needs floating point (the ring and dial tones).

Outside crates (BLAKE3, UUIDs, base64, X25519, Ed25519, Noise, X.509, a bimap, a
concurrent map) are called through small trusted wrappers whose contracts say what the
crates' sources show.
