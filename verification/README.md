# bili_shadowreplay

The logic of a live-stream recording and clipping tool, verified with Verus:
danmaku files and their encoding, Bilibili danmaku downloads, ASS rendering
of danmaku text, subtitle reflow and SRT cues, online speech-recognition
decisions, file transcription task caching, ffmpeg selection and file
naming, clip planning and settings.

- `src/` — the verified library. Each public function states its result in
  its contract; the laws that relate several functions are public proof
  functions (`lemma_*`).
- `tests/` — tests of the library on concrete values.
- `app/` — the unverified shell: settings on disk, the danmaku store,
  HTTP and websocket clients, ffmpeg processes and the floating-point
  danmaku layout. It hands what it reads to the library and acts on what
  comes back; what stays in it is I/O, waiting, floating-point arithmetic
  and the formatting of floating-point times.
