//! The verified logic of an FFmpeg input plugin for AviUtl2 and of the program
//! that benchmarks such plugins.
pub mod audio;
pub mod audio_prefetch;
pub mod benchmark;
pub mod benchmark_laws;
pub mod bootstrap;
pub mod cli;
pub mod cli_laws;
pub mod config;
pub mod config_defaults;
pub mod config_laws;
pub mod decimal;
pub mod file_hash;
pub mod fraction;
pub mod frame_cache;
pub mod hashing;
pub mod index;
pub mod indexing;
pub mod indexing_laws;
pub mod input_plugin;
pub mod manifest;
pub mod media;
pub mod memory;
pub mod packet_index;
pub mod plugin;
pub mod plugin_laws;
pub mod prefetch;
pub mod priority;
pub mod rate;
pub mod run;
pub mod settings_laws;
pub mod sorting;
pub mod text;
pub mod text_laws;
pub mod timestamp;
pub mod video;
pub mod video_laws;
pub mod video_prefetch;
