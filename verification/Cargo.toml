[package]
name = "audiotool"
version = "0.1.0"
edition = "2021"
publish = false

[dependencies]
hound = "*"
rand = "*"
rand_pcg = "*"
rand_distr = "*"
regex = "*"
tera = "*"
walkdir = "*"
ctrlc = "*"
serde = { version = "*", features = ["derive"] }
toml = "*"
libflac-sys = "*"
libsamplerate-sys = "*"
