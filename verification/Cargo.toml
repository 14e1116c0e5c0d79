[package]
name = "yewchat"
version = "0.1.0"
edition = "2021"
publish = false

[dependencies]
serde = { version = "1", features = ["derive"] }
serde_json = "1"
tokio = { version = "1", features = ["full"] }
tokio-websockets = { version = "*", features = ["server", "sha1_smol", "fastrand"] }
futures-util = { version = "0.3", features = ["sink"] }
log = "0.4"
yew = "0.19"
yew-router = "0.16"
yew-agent = "0.1"
web-sys = { version = "0.3", features = ["HtmlInputElement", "InputEvent", "Event"] }
