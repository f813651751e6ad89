[package]
name = "gertrude"
version = "0.1.0"
edition = "2021"
publish = false

[dependencies]
unicase = "=2.10.0"
nom-unicode = "=0.4.0"
actix-web = { version = "=4.18.1", default-features = false, features = ["macros"] }
anyhow = "=1.0.104"
async-trait = "=0.1.92"
clap = { version = "=4.6.7", features = ["derive", "cargo"] }
futures = "=0.3.34"
irc = { version = "=0.15.0", default-features = false, features = ["ctcp"] }
notify-debouncer-full = "=0.3.2"
prometheus = { version = "=0.13.4", default-features = false }
prost = "=0.11.9"
prost-types = "=0.11.9"
thiserror = "=1.0.69"
tokio = { version = "=1.54.1", features = ["full"] }
tokio-graceful-shutdown = "=0.13.0"
tokio-util = "=0.7.20"
tonic = "=0.9.2"
tracing = "=0.1.44"
tracing-subscriber = "=0.3.23"
wai-bindgen-wasmer = { version = "=0.27.0", features = ["sys", "cranelift"] }

[dev-dependencies]
nom = "=8.0.0"
