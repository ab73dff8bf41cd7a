[package]
name = "repo_fetch"
version = "0.1.0"
edition = "2021"
publish = false

[dependencies]
hex = "*"
serde_cbor = "*"
serde_json = "*"
serde_yaml = "*"
crossbeam-channel = "*"
git2 = "*"
rayon = "*"
tokei = "*"
