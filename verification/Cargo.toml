[package]
name = "captura_bandera"
version = "0.1.0"
edition = "2021"
publish = false

[dependencies]
rand = "0.8"
if-addrs = "*"
macroquad = "0.4"
