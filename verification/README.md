# ffmpeg_aui2

The logic of an FFmpeg input plugin for AviUtl2, and of the program that
benchmarks such plugins, written and verified in Verus.

- `src/` is the verified library. It decides; it reads no file, starts no thread
  and calls no decoder. Times are held by their bit patterns (`timestamp.rs`),
  samples and pixels by theirs.
  - The index of a file: `index.rs`, `indexing.rs`, `packet_index.rs`,
    `hashing.rs`, `file_hash.rs`.
  - Reading frames and samples: `input_plugin.rs`, `rate.rs`, `video.rs`, `audio.rs`,
    `prefetch.rs`, `video_prefetch.rs`, `audio_prefetch.rs`, `frame_cache.rs`.
  - Settings: `config.rs`, `config_laws.rs`, `config_defaults.rs`.
  - Loading: `bootstrap.rs`, `plugin.rs`.
  - The benchmark: `cli.rs`, `manifest.rs`, `benchmark.rs`, `run.rs`, `memory.rs`,
    `priority.rs`.
  - Text, numbers and order: `text.rs`, `fraction.rs`, `decimal.rs`, `sorting.rs`.
- `tests/` runs the library on concrete values.
- `app/` is what surrounds it: files, threads, FFmpeg, AviUtl2 and Windows. Built
  plainly it is the benchmark and the library that loads the plugin; with
  `--cfg ffmpeg_core` it holds the plugin, which needs FFmpeg and Windows.

What is believed of outside crates without proof (`dashmap`, `xxhash-rust`,
`clap` and parts of `std`) stands in `frame_cache.rs`, `hashing.rs`, `cli.rs`,
`text.rs` and `video_prefetch.rs`, each with a comment that names the function.
