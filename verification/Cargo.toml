[package]
name = "bad_editor"
version = "0.1.0"
edition = "2021"
publish = false

[dependencies]
ropey = "1.6"
unicode-segmentation = "1"
unicode-width = "*"
shlex = "1"
unicode_names2 = "*"
radix_trie = "*"
crossterm = { version = "0.29", features = ["osc52"] }
clap = "4"
directories = "*"
ec4rs = "*"
syntect = { version = "5", default-features = false, features = ["default-fancy"] }
reedline = "*"
nu-ansi-term = "*"
libc = "0.2"
