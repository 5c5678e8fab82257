[package]
name = "thorn-svg-core"
version = "0.1.0"
edition = "2021"
publish = false

[dependencies]
twig-doc = "3.9.2"
svgtypes = "*"
usvg = "*"
resvg = "*"
thiserror = "*"
anyhow = "*"
clap = { version = "*", features = ["derive"] }
