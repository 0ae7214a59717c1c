[package]
name = "spotlight"
version = "0.1.0"
edition = "2021"
publish = false

[dependencies]
ddc-hi = { version = "=0.4.1", default-features = false, features = ["ddc-winapi", "nvapi"] }
ddc-winapi = "=0.2.2"
mccs-db = "=0.1.3"
windows = { version = "0.58", features = ["Win32_Foundation", "Win32_Graphics_Gdi"] }

[dev-dependencies]
mccs = "=0.1.3"
