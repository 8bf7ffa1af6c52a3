[package]
name = "mp3_normalizer"
version = "0.1.0"
edition = "2021"
publish = false

[dependencies]
id3 = "1.7.0"
minimp3 = "0.5.1"
rayon = "1.7.0"
system_shutdown = "4.0.1"
walkdir = "2"
