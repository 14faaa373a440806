[package]
name = "pe_edit"
version = "0.1.0"
edition = "2021"
publish = false

[dependencies]
iced-x86 = "=1.22.0"
windows-sys = { version = "=0.61.2", features = ["Win32_Foundation", "Win32_System_Diagnostics_Debug", "Win32_System_Memory", "Win32_System_Threading"] }
thiserror = "=2.0.21"
eframe = { version = "=0.37.0", default-features = false, features = ["default_fonts", "glow", "x11"] }
rfd = { version = "=0.17.2", default-features = false, features = ["xdg-portal"] }
rust-i18n = "=4.2.4"
sys-locale = "=0.3.2"
