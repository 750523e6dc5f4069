[package]
name = "tex_of_ocaml"
version = "0.1.0"
edition = "2021"
publish = false

[dependencies]
clap = { version = "3", features = ["derive"] }
im = "15"
