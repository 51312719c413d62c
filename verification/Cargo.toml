[package]
name = "github_lib"
version = "0.1.0"
edition = "2021"
publish = false

[dependencies]
url = "=2.5.8"
reqwest = { version = "=0.13.5", default-features = false, features = ["json", "query"] }
reqwest-middleware = { version = "=0.5.2", features = ["query"] }
tokio = { version = "=1.53.2", features = ["macros", "rt-multi-thread"] }
clap = { version = "=4.6.7", features = ["derive", "env"] }
colored = "=3.1.1"
env_logger = "=0.11.11"
log = "=0.4.34"
http = "=1.5.0"
async-trait = "=0.1.92"
futures-util = "=0.3.34"
serde = { version = "=1.0.229", features = ["derive"] }
anyhow = "=1.0.104"
