[package]
name = "ga_sim"
version = "0.1.0"
edition = "2021"
publish = false

[dependencies]
glam = "*"
hound = "*"
obvhs = "*"
rand = "*"
rayon = "*"
rustfft = "*"
plotters = { version = "*", default-features = false, features = ["bitmap_backend", "bitmap_encoder", "ab_glyph", "line_series"] }
csv = "*"
tobj = "*"
thread_local = "*"
paste = "*"
