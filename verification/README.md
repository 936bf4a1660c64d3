# mgba_gateway

A gateway for many Game Boy Advance emulators at once: it starts them, sends them commands on behalf
of whoever may, and streams what they draw to viewers.

- `src/` is the library: access rules, settings, commands and their scheduling, the stream protocol,
  and what a worker does for each request. Verus proves its contracts.
- `app/` is the program around it: HTTP and WebSocket routes, sockets, processes, and the C interface
  of the emulator cores. Under the name `worker` it runs one emulator, otherwise it serves the
  gateway.
- `tests/` runs the library on concrete values.

## What is proved

- A viewer that applies the frames it was sent shows the last picture that was sent, and after a
  dropped difference the next frame is a whole picture (`streaming::broadcast`,
  `streaming::viewer`).
- Frames, messages and packets decode to what was encoded (`streaming::protocol`,
  `ipc::transport`).
- Access is denied without a known token and an active grant for that very session, whatever was
  granted and revoked before (`auth`).
- A request is let through just where its arguments are well formed, and then reaches the worker as
  what it means (`gateway::api`).
- What is written to memory is read back (`worker::emulator`, `gateway::api`).
- Over a dashboard call each frame that is made is counted once, as sent or as dropped
  (`streaming::dashboard`), and counters are the sums of what was recorded (`streaming::metrics`).
- An H.264 frame carries one NAL unit, without a start code, and the units of a stream come back
  whole and in order (`streaming::h264`).
- No more instances run, or are about to, than may (`instances`).
- The most urgent command is sent first, and among equals the oldest (`mgba::scheduler`).

## What is taken on trust

The calls into `flate2`, `serde_json`, `sha2`, `rand`, `uuid`, `chrono`, `image` and `openh264` stand
behind small wrappers whose contracts say what these crates document, and no more.

## Running

The gateway is set up through its environment:

| Variable | Default |
|---|---|
| `BIND_HOST` | `127.0.0.1` |
| `PORT` | `8787` |
| `ADMIN_TOKEN` | `dev-admin-token` |
| `MAX_INSTANCES` | `20` |
| `WORKER_BINARY_PATH` | `./target/debug/worker` |
| `LIBRETRO_CORE_PATH` | |
| `WORKER_SOCKET_DIR` | `/tmp/mgba-workers` |
| `WORKER_SHUTDOWN_TIMEOUT_MS` | `2000` |
| `CAPTURE_INTERVAL_MS` | `8` |
| `H264_ENABLED` | `false` |
| `STREAM_KEYFRAME_INTERVAL` | `60` |
| `STREAM_TILE_SIZE` | `16` |
| `WS_BACKPRESSURE_LIMIT` | `262144` |
| `ROM_PATH` | |

A new instance runs the ROM at `ROM_PATH`, or the one that the request for it names: `POST
/admin/instances` takes `{"rom_path": "..."}` as its body.
