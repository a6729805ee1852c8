[package]
name = "rtx"
version = "0.1.0"
edition = "2021"
publish = false

[dependencies]
clap = { version = "4", features = ["derive"] }
color-eyre = "0.6"
color-print = "0.3"
console = "0.15"
duct = "0.13"
eyre = "0.6"
indexmap = "2"
indoc = "2"
log = "0.4"
once_cell = "1"
shell-escape = "0.1"
