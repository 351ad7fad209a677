[package]
name = "cardtext"
version = "0.1.0"
edition = "2021"
publish = false

[dependencies]
hemoglobin = "=0.10.0"
yew = { version = "=0.23.0", features = ["csr"] }
yew-router = "=0.20.0"
yew-hooks = "=0.6.4"
gloo-timers = "=0.4.0"
web-sys = { version = "=0.3.106", features = ["Window", "Document", "HtmlInputElement"] }
reqwest = { version = "=0.13.5", default-features = false, features = ["json"] }
serde = { version = "=1.0.229", features = ["derive"] }
rand = "=0.10.3"
