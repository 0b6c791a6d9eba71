[package]
name = "kova_query"
version = "0.1.0"
edition = "2021"
publish = false

[dependencies]
roaring = "0.10"
thiserror = "2"
