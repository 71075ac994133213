# ai_translate

A realtime speech translation service for Kazakh, Russian and English. Audio arrives over a
WebSocket, is transcribed by a remote recognition model, filtered, and translated into all
three languages; every translation is kept in a bounded history that can be listed per
session.

The library in `src/` holds the decisions and text handling, verified with Verus:

- `text` – whitespace, trimming, splitting into words, joining, decimal numbers, ASCII case
  folding, all specified over character sequences.
- `unicode`, `patterns`, `clock`, `json` – the calls into the standard library's Unicode
  tables, the `regex` crate, the system clock and `serde_json`, each with the contract it is
  trusted to keep.
- `lang` – languages, their codes and labels, detection from text, and the filter for
  phrases that recognition invents on silence.
- `glossary` – parsing preferred terms and the prompt that asks to keep them.
- `history` – the bounded log of translations, listings and per-session summaries, with
  the laws that relate writes to reads.
- `session` – the per-connection state machine: the counter that numbers sessions, commands,
  settings, and the decisions taken on every recognized chunk.
- `translate`, `audio`, `config` – prompts and the reading of recognition and translation
  replies, PCM samples and their WAV file (written by `hound`, its layout stated byte for
  byte), integer settings.

`app/` is the server around it: environment, files, HTTP and WebSocket handling, requests to
the recognition and translation services, and the floating-point checks (signal energy,
share of letters, repeat window).

The server runs each WebSocket session in-process. There is no gRPC endpoint (`GRPC_ADDR`,
`GRPC_ENDPOINT`): the WebSocket handler drives the same session logic directly.
