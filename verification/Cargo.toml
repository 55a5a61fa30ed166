[package]
name = "arch_music_player"
version = "0.1.0"
edition = "2021"
publish = false

[dependencies]
anyhow = "1"
chrono = "0.4"
dirs = "5"
notify = "6"
parking_lot = "0.12"
rodio = "0.19"
rusqlite = "0.31"
tokio = { version = "1", features = ["rt-multi-thread", "sync"] }
