[package]
name = "soundprint"
version = "0.1.0"
edition = "2021"
publish = false

[dependencies]
m3u8-rs = "*"
minimp3 = "*"
url = "*"
crossbeam-channel = "*"
dotenv = "*"
rayon = "*"
redis = "*"
reqwest = { version = "*", default-features = false }
rustfft = "*"
tokio = { version = "*", default-features = false, features = ["rt-multi-thread"] }
