[package]
name = "broforce"
version = "0.1.0"
edition = "2021"
publish = false

[dependencies]
slint = { version = "1", default-features = false, features = ["std", "compat-1-2"] }
windows-sys = { version = "0.61", features = ["Win32_Foundation", "Win32_Security", "Win32_System_DataExchange", "Win32_System_Diagnostics_Debug", "Win32_System_Diagnostics_ToolHelp", "Win32_System_Memory", "Win32_System_Ole", "Win32_System_Threading"] }
