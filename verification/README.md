# turbotransfer_core

Chunked, resumable, multi-channel file transfer between a computer and an Android
phone over USB (adb tunnel or tethering) and 5 GHz Wi-Fi. The library in `src/`
holds the transfer's data structures and decisions, verified by Verus; the
floating-point rate model (goodput and round-trip averages that feed the
congestion window's signals, progress rates and estimates) and the I/O stay in
`app/`.

## Layout

- `src/` — the verified library.
  - `checksum` — CRC32C (with the proved combination of chunk checksums into the
    file checksum) and xxHash64 of chunks.
  - `chunk` — the chunk plan of a file.
  - `protocol` — message kinds, the length-prefixed frame format and its decoder.
  - `manifest` — the stored transfer record, completed-range bookkeeping and the
    record-keeping state machine.
  - `scheduler` — per-channel tracking, throughput windows, the multipath
    dispatch queue, the congestion window and the bounded buffer pool.
  - `transport` — link state, reconnect attempts, vectored-write offsets, adb
    argument lists and device-list parsing.
  - `transfer` — the sending and receiving session decisions, the shared send
    bookkeeping (no chunk of the plan is ever lost between queue, flight and
    acknowledgment), the chunk checksum ledger, the registry of active transfers,
    address handling, connection attempts, hotspot gateway selection and resume.
  - `benchmark` — the calibration sweep, pair keys and the xorshift generator.
  - `text` — verified string helpers the rest builds on.
- `tests/` — tests of the library.
- `app/` — the `turbo` command line: sockets, files, adb processes, async tasks,
  serde encodings and the floating-point rate model, around the library. It
  takes each chunk from the shared queue while the channel's window has room, and
  hands back to the library what it measured.
