[package]
name = "play_chess"
version = "0.1.0"
edition = "2021"
publish = false

[dependencies]
chess = "3"
rayon = "1"
smallvec = "1"
vampirc-uci = { version = "*", features = ["chess"] }
