# mp3_normalizer

A command line tool that writes ReplayGain tags into MP3 files, built around a
verified library.

- `src/` is the library, verified with Verus:
  - `args`: the command line, read argument by argument into settings and the
    requests the tool must carry out (folders to walk, values to read, help);
  - `task`: the input paths (each once), the task, and what happens at the end
    (opening the output folder, shutting down, hibernating, sleeping);
  - `plan`: the checks on conflicting options and the work each file gets;
  - `albums`: files grouped into albums;
  - `tags`: the replay-gain entries of an ID3 tag (writing, removing), on top
    of the `id3` crate;
  - `gain`: the integer side of the loudness analysis (channel blocks, sums of
    squares, peaks, the 95th percentile position);
  - `text`: string comparison, decimal integers, the `mp3` extension.
- `app/` is the program: file system and process work, MP3 decoding with
  `minimp3`, threads and `rayon`, and the floating-point loudness arithmetic.
- `tests/` exercises the library on concrete values.
