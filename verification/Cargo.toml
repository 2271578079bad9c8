[package]
name = "memflow-native"
version = "0.2.0"
edition = "2021"
publish = false

[dependencies]
libc = "0.2"
memflow = "0.2"
procfs = "0.15"
windows = { version = "0.51", features = ["Win32_Foundation", "Win32_Security", "Win32_System_Threading", "Win32_System_Diagnostics_ToolHelp"] }

[dev-dependencies]
itertools = "0.10"
