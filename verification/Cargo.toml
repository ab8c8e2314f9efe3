[package]
name = "xpr_swizzle"
version = "0.1.0"
edition = "2021"
publish = false

[dependencies]
clap = { version = "3.2", features = ["derive"] }
png = "0.17"

[dev-dependencies]
packed_struct = "0.10"
