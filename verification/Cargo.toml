[package]
name = "audio_graph"
version = "0.1.0"
edition = "2021"
publish = false

[dependencies]
crossbeam-channel = "0.5"
log = "0.4"
num-complex = "0.4"
