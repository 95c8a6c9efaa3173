[package]
name = "screenshotter"
version = "0.1.0"
edition = "2021"
publish = false

[dependencies]
clap = { version = "=4.6.7", features = ["derive"] }
color-eyre = "=0.6.5"
futures = "=0.3.34"
image = { version = "=0.25.10", default-features = false, features = ["png", "webp"] }
libc = "=0.2.191"
notify-rust = "=4.18.2"
path-clean = "=1.0.1"
regex = "=1.13.1"
serde = { version = "=1.0.229", features = ["derive"] }
serde_json = "=1.0.154"
shlex = "=2.0.1"
strfmt = "=0.2.6"
swayipc = "=4.0.0"
sysinfo = "=0.40.1"
time = { version = "=0.3.55", features = ["formatting", "local-offset", "macros"] }
tokio = { version = "=1.54.1", features = ["rt", "macros", "net", "process", "time", "io-util"] }
toml = "=1.1.8"
tracing = "=0.1.44"
wayland-client = "=0.31.15"
wayland-protocols = { version = "=0.32.13", features = ["client", "staging", "unstable"] }
wayland-protocols-wlr = { version = "=0.3.12", features = ["client"] }
xkbcommon = "=0.9.0"
