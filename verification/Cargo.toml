[package]
name = "minic"
version = "0.1.0"
edition = "2021"
publish = false

[dependencies]
once_cell = "1"
queues = "1"
regex = "1"
