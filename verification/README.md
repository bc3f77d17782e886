# `peer_archive`

Reads archives of peer-observer events and shows what they hold. The
library is written in Verus: what each function returns is stated in its contract and
proved. The proofs rest on what is stated, without proof, of the calls into prost,
zstd and std; the doc comment of each such function begins its claim with "Trusted".
It is not promised that there is memory to decompress a file, nor which time the clock
shows.

## Layout

- `src/wire.rs`, `src/fields.rs`: varints, length delimiters and the fields of
  protobuf messages.
- `src/archive/`: archives that begin with a header message. `input.rs` takes in the
  bytes as they are read, `read.rs` reads messages from them, `replayer.rs` replays
  whole archives into the log, and `laws.rs` states what holds of archives as a whole.
- `src/replayer/`: archive files with a fixed header, and what is shown of them: the
  events, the peers, a sequence diagram, comma-separated values.
- `src/nats.rs`: waiting until a NATS server has handled what was published.
- `app/`: the command line, file access and the connection to the server.

The library neither reads nor writes files. A function that needs input returns that
it does (`NeedInput`, or an action), and is called again with what came of it. How an
event is decoded from its message is handed in as a function.

## Usage

```bash
# replay archives into the log
peer_archive log archive.0.bin.zst archive.1.bin.zst

# print decoded events
peer_archive show archive.0.bin.zst

# list peers sorted by message count
peer_archive show archive.0.bin.zst --list-peers

# generate a mermaid sequence diagram, for all peers or for some
peer_archive show archive.0.bin.zst --sequence-diagram
peer_archive show archive.0.bin.zst --sequence-diagram --peer 1 --peer 3

# write the diagram as self-contained HTML
peer_archive show archive.0.bin.zst --sequence-diagram --html diagram.html

# write P2P messages as CSV
peer_archive show archive.0.bin.zst --csv events.csv

# filter events by timestamp (milliseconds) or by the type of a message
peer_archive show archive.0.bin.zst --from 1703001600000 --to 1703001700000
peer_archive show archive.0.bin.zst --msg-type ping,pong
```

`--sequence-diagram`, `--html`, and `--csv` only work with a single archive file.
