# rigtether

The verified core of the RigTether portable radio interface.

- `src/framing.rs` — v0 BLE transfer framing: fragmentation and strict reassembly.
- `src/audio.rs` — the UAC1 descriptor and the USB/I2S sample conversions.
- `src/cat.rs`, `src/cat/` — the typed Elecraft KX2/KX3 CAT core: response parsing,
  the incremental frame decoder, the CAT session and its exchange scripts, and the
  deterministic transcript simulator.
- `src/json.rs`, `src/strict_json.rs` — JSON values as the v0 protocol uses them.
- `src/model.rs`, `src/model/machine.rs` — the PTT safety and session state machine,
  with every transition stated over `ModelView` and its safety laws.
- `src/radio.rs` — the typed radio adapter that exposes no raw-write path.
- `app/` — the strict JSON parse (serde visitor) and `serde_json` entry points.
