[package]
name = "et_services"
version = "0.1.0"
edition = "2021"
publish = false

[dependencies]
base64 = "*"
url = "*"
image = { version = "*", default-features = false, features = ["png", "jpeg", "gif", "webp", "bmp"] }
serde = { version = "*", features = ["derive"] }
serde_json = "*"
thiserror = "*"
anyhow = "*"
fs-err = "*"
bytes = "*"
futures-util = "*"
tokio = { version = "*", features = ["rt", "rt-multi-thread", "macros", "net", "io-util", "signal", "time"] }
actix-web = { version = "*", default-features = false, features = ["macros"] }
actix-files = "*"
actix-ws = "*"
object_store = "*"
tracing = "*"
tracing-subscriber = { version = "*", features = ["env-filter"] }
tokio-tungstenite = "*"
clap = { version = "*", features = ["derive", "env"] }

[dev-dependencies]
tempfile = "*"
