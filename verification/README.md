# rhema

The verified core of Rhema, a tool that follows a sermon's transcript and
shows the Bible verses it names or reads.

- `src/reading_mode.rs`: reading mode, which follows a reader through a
  passage by the word overlap between the transcript and the loaded verses,
  and obeys spoken navigation ("next verse", "go back", "verse three").
- `src/detection.rs`, `src/references.rs`, `src/books.rs`: the detection
  pipeline, which finds written references such as "John 3:16" and merges
  them with semantic detections (computed by an embedding model outside the
  library and handed in) and full-text search hits: a verse found twice is
  boosted, and a verse reported within the cooldown is held back.
- `src/ndi.rs`: the checks and the RGBA to BGRA conversion of NDI video
  output.
- `src/text.rs`: character-level text handling (white space, words, trimming,
  decimal numbers).
- `src/bible.rs`, `src/errors.rs`, `src/clock.rs`: cross-reference keys,
  error messages, clock readings.
- `app/`: the SQLite Bible database, the NDI runtime library, and the
  serializable forms of the library's types.
