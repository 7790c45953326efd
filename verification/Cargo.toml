[package]
name = "unity_asset_bundle"
version = "0.1.0"
edition = "2021"
publish = false

[dependencies]
lz4_flex = "0.11"
nom = "7"
