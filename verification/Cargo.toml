[package]
name = "photo_sync"
version = "0.1.0"
edition = "2021"
publish = false

[dependencies]
blake = "2"
bloomfilter = "1"
rand = "0.8"
