[package]
name = "splice_solver"
version = "0.1.0"
edition = "2021"
publish = false

[dependencies]
anyhow = "1"
arrayvec = "0.7"
itertools = "*"
mimalloc = "*"
pathfinding = "*"
petgraph = "*"
relm4 = "*"
tempfile = "3"
to_trait = "*"
