[package]
name = "apt_remote"
version = "0.1.0"
edition = "2021"
publish = false

[dependencies]
url = "*"
ssh2 = "*"
rpassword = "*"
dirs = "*"
reqwest = { version = "*", default-features = false, features = ["blocking"] }
rayon = "*"
clap = { version = "*", features = ["derive"] }
xz2 = "*"
anyhow = "*"
