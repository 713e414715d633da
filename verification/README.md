# lyrics_core

The library behind a desktop manager for time-synchronized (`.lrc`) and plain
lyrics of a local music library, written in Verus: every function in `src/`
carries a contract, and the laws the library keeps are stated and proved as
proof functions beside the code they are about.

## Layout

- `src/` — the verified library.
  - `text`, `lrc`: characters and lines, LRC timestamps, timed lines, the
    lyrics audit, title matching.
  - `model`, `providers`, `sources`: tracks and lyric statuses, the lyrics
    services' names, results and errors, and the rules that turn each
    service's reply (HTTP status, token, search result, page) into a result.
  - `download`: one track's download as a state machine that decides while its
    caller does the work; `batch`: which tracks a batch download works on,
    its tallies and its activity log.
  - `rate_limiter`: per-provider pacing with back-off.
  - `scanner`, `config`, `fs`: scanning rules, settings rules, lyrics files.
  - `art`, `art_jobs`, `image_cache`, `memo`: choosing a cover among tags and
    folder images, the thumbnail and waveform stores' keys, the artwork work
    queue, which rows a cover reaches, and the bounded image cache.
  - `library`, `waveform`, `level`: what the library views show, playback
    order, the seek bar's bars, the live level.
- `app/` — ordinary Rust around the library: files, the settings store and
  credential vault, the SQLite library database, tag reading, the HTTP
  clients of the lyrics services, audio decoding for the waveform, and
  everything that computes in floating point.
- `tests/` — tests of the library on concrete values.

Times inside the library are whole milliseconds and confidences are
thousandths; `app/` converts to and from the seconds and fractions that
files, databases and players use.
