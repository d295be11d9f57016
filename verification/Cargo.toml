[package]
name = "waterfurnace_symphony"
version = "0.1.0"
edition = "2021"
publish = false

[dependencies]
tokio = { version = "1", features = ["sync", "time", "net", "macros", "rt-multi-thread", "io-util"] }
tokio-tungstenite = "0.21"
reqwest = { version = "0.11", default-features = false, features = ["cookies"] }
url = "2"
regex = "1"
serde = { version = "1", features = ["derive"] }
serde_json = "1"
thiserror = "1"
tracing = "0.1"
tracing-futures = "0.2"
tracing-subscriber = { version = "0.3", features = ["env-filter", "fmt"] }
futures = "0.3"
warp = { version = "0.3", default-features = false, features = ["websocket"] }
backoff = "0.4"
cached = { version = "0.46", features = ["async"] }
async-trait = "0.1"
structopt = "0.3"
ctrlc = "3"
rand = "0.8"
rand_distr = "0.4"
crossbeam = "0.8"
