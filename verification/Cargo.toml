[package]
name = "deepseek-harness"
version = "0.1.0"
edition = "2021"
publish = false

[dependencies]
url = "2"
windows-sys = { version = "0.59", features = ["Win32_Foundation", "Win32_Security", "Win32_System_JobObjects", "Win32_System_Threading"] }
