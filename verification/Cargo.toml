[package]
name = "panel_driver"
version = "0.1.0"
edition = "2021"
publish = false

[dependencies]
esp-hal = "*"
esp-alloc = "*"
esp-backtrace = "*"
esp-println = "*"
embedded-graphics = "*"
embedded-graphics-framebuf = "*"
log = "*"
