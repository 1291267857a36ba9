[package]
name = "file-explorer"
version = "0.1.0"
edition = "2021"
publish = false

[dependencies]
syntect = { version = "5", default-features = false, features = ["default-fancy"] }
two-face = { version = "0.4", default-features = false, features = ["syntect-fancy"] }
nucleo = "0.5"
once_cell = "1"
crossbeam-channel = "0.5"
ignore = "0.4"
grep-regex = "0.1"
grep-searcher = "0.1"
notify = "*"
