[package]
name = "herdr_share"
version = "0.1.0"
edition = "2021"
publish = false

[dependencies]
tokio = { version = "1", features = ["fs", "io-util", "macros", "net", "rt-multi-thread", "sync", "time"] }
sha2 = "0.10"
tracing = "0.1"
libc = "0.2"
crossterm = "0.28"
portable-pty = "0.8"
windows-sys = { version = "0.52", features = ["Win32_Foundation", "Win32_System_Threading"] }
