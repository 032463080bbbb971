[package]
name = "luncher"
version = "0.1.0"
edition = "2021"
publish = false

[dependencies]
nucleo = "0.5"
indexmap = "2"
blake3 = "1"
anyhow = "1"
atty = "0.2"
bytemuck = "1"
bytes = "1"
calloop = "*"
calloop-wayland-source = "*"
clap = { version = "4", features = ["derive"] }
dirs = "*"
freedesktop-desktop-entry = "*"
memmap2 = "0.9"
postcard = { version = "1", features = ["alloc"] }
redb = "*"
serde = { version = "1", features = ["derive"] }
serde_json = "1"
smithay-client-toolkit = "*"
swash = "0.2"
tokio = { version = "1", features = ["full"] }
toml = "*"
tracing = "0.1"
tracing-subscriber = { version = "0.3", features = ["env-filter"] }
wayland-client = "*"
wayland-protocols = { version = "*", features = ["client"] }
wl-clipboard-rs = "*"
xkbcommon = "*"
