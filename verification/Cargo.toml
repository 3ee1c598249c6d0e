[package]
name = "todo_notes"
version = "0.1.0"
edition = "2021"
publish = false

[dependencies]
dirs = "*"
getopts = "0.2"
git2 = { version = "*", default-features = false }
regex = "1"
