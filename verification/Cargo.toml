[package]
name = "cmd_cat"
version = "0.1.0"
edition = "2021"
publish = false

[dependencies]
termion = "*"
inquire = "*"
rustyline = "*"
rusqlite = "*"
reedline = "*"
