# rustems

Host-side logic for a desktop app that splits songs into stems and manages a
Kano Stem Player over USB, written in Verus and proved against its contracts.

`src/` is the verified library:

- `frame` — packet framing (`[len u16 LE][cmd][payload]`), body chunks, and
  reassembly of a response from USB reads.
- `device` — control requests, the READY / header / data exchange that reads
  a file from the player, delete confirmations, listing packets, and the
  connect handshake as a state machine.
- `json` — the JSON values the player exchanges, with serde_json's lookup
  rules; text and bytes are parsed and written by serde_json.
- `catalog` — track listings, track configs and storage figures, read from
  the device's packets, and the choice of album and track ids for an upload.
- `sync` — the two sync passes that prime the player before an upload, and
  the reads that list its tracks, as plans of requests, each with the
  message it sends; which failures end a pass; the albums the listing reads
  describe.
- `session` — the course of an upload as a state machine: two sync passes,
  id choice, storage check, stems, track config.
- `upload` — upload metadata, the track config of a new track, the packets
  and bytes they are sent as, the storage check.
- `stems` — stem names, upload slots, file names, loading a song stem by stem.
- `audio` — stereo planes from interleaved samples, and encoding a stem as
  MP3 at 320 kbps, 44100 Hz stereo (LAME).
- `text` — decimal and hexadecimal text, white space, UTF-8 and lower case.

`app/` holds what the verifier does not see: USB transfers (rusb), playback
(kira), decoding, resampling and WAV reading (symphonia, rubato, hound), the stem-splitting model (stem-splitter-core), random
colours (rand), and serde copies of the reported types for the frontend.
