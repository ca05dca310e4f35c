# eab

Entitlements, achievements and player profiles recorded on a per-player
ledger, with offline achievement records that games can later claim online,
bounded discovery and claim wire messages, and hyper-dimensional profile
vectors.

`src/` is the library, verified with Verus: each public function states what
it returns or changes in its `ensures`, over spec functions and views of its
types, and the laws that span several functions stand as public proof
functions.

- `cbor`, `codec`, `wire`, `secure` – deterministic CBOR framing of the
  discovery and secure-claim messages, with decoding proved to give back what
  encoding wrote.
- `achievement`, `offline`, `claim` – achievement definitions, offline event
  evaluation into immutable records, their integrity hash, and the canonical
  claim envelope and acknowledgement.
- `ledger`, `profile` – the hash-linked ledger, and the profile service that
  keeps profiles, rewards and claims, logs every change, restores from storage
  and answers canonical claims.
- `hd`, `registry`, `table` – seeded bit vectors and the registries of
  concepts, achievements and entitlements.
- `node`, `discovery`, `network`, `quic`, `anchor` – discovery cookies,
  trusted-authority pins and selection, the discovery state machine, target
  and interface selection, the checks around pinned QUIC exchanges, and
  anchoring blocks on a qcoin node.
- `access`, `identity`, `api`, `secure_claims`, `sdk` – developer tokens and
  scopes, identity exchange and sessions, what each HTTP endpoint decides, the
  secure claim service, and the client-side checks of a game.

`app/` is the program around the library: the HTTP server, storage on disk,
QUIC sockets, the HTTP client and the concept registry tool.

`tests/` exercises the library through its public interface.
