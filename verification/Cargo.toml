[package]
name = "merkle_tree_bulletin_board"
version = "0.1.0"
edition = "2021"
publish = false

[dependencies]
anyhow = "1"
hex = "0.4"
merkletree = "*"
serde = "1"
sha2 = "0.9"
