[package]
name = "bin_prot"
version = "0.1.0"
edition = "2021"
publish = false

[dependencies]
byteorder = "1"
num = "0.4"
serde = { version = "1", features = ["derive"] }
serde_json = { version = "1", features = ["unbounded_depth"] }
serde_stacker = "0.1"
shrinkwraprs = "0.3"
