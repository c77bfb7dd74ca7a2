[package]
name = "buzzer_music"
version = "0.1.0"
edition = "2021"
publish = false

[dependencies]
arrayvec = "*"
embassy-rp = { version = "*", features = ["rp2040"] }
