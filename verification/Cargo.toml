[package]
name = "picasso"
version = "0.1.0"
edition = "2021"
publish = false

[dependencies]
vinci = "*"
colored = "*"
rustyline = "*"
libloading = "*"
mlua = { version = "*", features = ["luajit", "vendored"] }
