[package]
name = "ncudio"
version = "0.1.0"
edition = "2021"
publish = false

[dependencies]
md5 = "0.7"
kakasi = "*"
jwalk = "*"
lofty = "*"
rayon = "*"
chrono = "*"
