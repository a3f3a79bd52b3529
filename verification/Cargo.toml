[package]
name = "tuxflow"
version = "0.1.0"
edition = "2021"
publish = false

[dependencies]
glob = "*"
gtk4 = "*"
libadwaita = "*"
vte4 = "*"
