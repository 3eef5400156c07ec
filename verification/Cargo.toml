[package]
name = "link_graph"
version = "0.1.0"
edition = "2021"
publish = false

[dependencies]
clap = "2"
linkify = "*"
petgraph = "*"
reqwest = { version = "0.11", default-features = false, features = ["blocking"] }
simple-stopwatch = "*"
