[package]
name = "oidc"
version = "0.1.0"
edition = "2021"
publish = false

[dependencies]
serde_json = "*"
anyhow = "*"
clap = { version = "*", features = ["derive", "env"] }
clap_complete = "*"
serde = { version = "*", features = ["derive"] }
serde_yaml = "*"
time = { version = "*", features = ["formatting", "parsing", "serde-well-known", "macros"] }
url = "*"
directories = "*"
open = "*"
humantime = "*"
log = "*"
simplelog = "*"
tokio = { version = "*", features = ["rt-multi-thread", "macros", "net", "sync", "io-util", "io-std"] }
reqwest = { version = "*", default-features = false, features = ["rustls-tls"] }
openidconnect = "*"
oauth2 = "*"
comfy-table = "*"
colored_json = "*"
pretty-hex = "*"
