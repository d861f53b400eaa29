[package]
name = "texlab"
version = "0.1.0"
edition = "2021"
publish = false

[dependencies]
cancellation = "0.1"
cstree = "*"
lsp-types = "*"
