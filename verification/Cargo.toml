[package]
name = "dbgcore"
version = "0.1.0"
edition = "2021"
publish = false

[dependencies]
iced-x86 = { version = "=1.21.0", default-features = false, features = ["std", "decoder", "nasm"] }
libc = "=0.2.191"
egui = "0.27"
egui-modal = "0.3"
rfd = "0.14"
