[package]
name = "ffmpeg_aui2"
version = "0.1.0"
edition = "2021"
publish = false

[dependencies]
anyhow = "1"
aviutl2 = "*"
aviutl2-sys = "*"
clap = { version = "4", features = ["derive"] }
csv = "1"
dashmap = "6"
ffmpeg-next = "*"
libloading = "0.8"
native-dialog = "*"
process_path = "*"
rayon = "1"
rkyv = "0.8"
serde = { version = "1", features = ["derive"] }
serde_json = "1"
tokio = { version = "1", features = ["rt-multi-thread", "sync", "macros", "time"] }
tracing = "0.1"
windows-sys = { version = "0.61", features = ["Win32_Foundation", "Win32_System_ProcessStatus", "Win32_System_Threading"] }
xxhash-rust = { version = "0.8", features = ["xxh3"] }
