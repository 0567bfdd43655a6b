[package]
name = "alphaword_blocks"
version = "0.1.0"
edition = "2021"
publish = false

[dependencies]
anyhow = "1"
clap = { version = "4", features = ["derive"] }
hashbrown = "*"
rand = "0.8"
rand_chacha = "0.3"
rayon = "1"
regex = "1"
serde = { version = "1", features = ["derive"] }
smallvec = "1"
strum = "0.26"
strum_macros = "0.26"
toml = "0.8"
unicode-normalization = "0.1"
unicode-segmentation = "1"
