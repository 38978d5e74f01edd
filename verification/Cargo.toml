[package]
name = "oxide"
version = "0.1.0"
edition = "2021"
publish = false

[dependencies]
anyhow = "*"
csv = "*"
ctrlc = "*"
dirs = "*"
glob = "*"
rustyline = "*"
serde_json = "*"
sysinfo = "*"
