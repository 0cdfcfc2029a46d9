[package]
name = "atom_lang"
version = "0.1.0"
edition = "2021"
publish = false

[dependencies]
thiserror = "2"
