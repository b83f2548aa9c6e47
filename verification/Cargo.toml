[package]
name = "delete_bitset"
version = "0.1.0"
edition = "2021"
publish = false

[dependencies]
tantivy-common = "0.1"
