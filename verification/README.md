# vod-pipeline

A queue-first media pipeline for Twitch VOD artifacts: it queues a channel's
archive VODs, downloads each with ffmpeg into an artifact directory,
transcribes it with `hear` into SRT and WebVTT, judges the transcript, and
tracks every artifact in `status.json` so that reruns resume where they left
off.

The library in `src/` holds the pipeline's logic, verified with Verus:

- `text`: character and string primitives with their specifications
  (trimming, lines, words, decimal numbers, column cuts).
- `twitch`: video ids from URLs, the playlist URL and the token query of a
  VOD, queue entries from archive listings.
- `downloader`: reading an HLS master playlist and choosing a stream variant.
- `transcribe`: SRT to WebVTT, the words of a transcript, and the repetition
  check that marks a transcript as suspect.
- `artifact`: the records of an artifact directory and of a queue, and how a
  status changes with a download or a transcription.
- `pipeline`: which VODs a queue takes, which still need a download or a
  transcript, which may be cleaned up, and the status table.
- `laws`: properties that span these operations, as proof functions.
- `bindings`: the calls into `regex`, `url`, `urlencoding` and the clock.

`app/` is the command-line program around it: argument parsing with clap,
HTTP with reqwest, JSON with serde, and the external programs.
