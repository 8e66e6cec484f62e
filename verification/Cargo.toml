[package]
name = "ratty"
version = "0.1.0"
edition = "2021"
publish = false

[dependencies]
vt100 = "0.16"
vte = "0.13"
ratatui = { version = "0.30", default-features = false }
portable-pty = "0.9"
anyhow = "1"
tobj = "4"
pollster = "0.4"
bevy = { version = "0.17", default-features = false }
