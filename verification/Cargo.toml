[package]
name = "shelly-rpc"
version = "0.1.0"
edition = "2021"
publish = false

[dependencies]
heapless = { version = "0.8", features = ["serde"] }
serde = { version = "1", default-features = false, features = ["derive"] }
serde-json-core = "0.6"
base64 = "0.22"
reqwless = { version = "0.13", default-features = false }
embedded-nal-async = "0.8"
embedded-io = "0.6"
embedded-io-async = "0.6"
tokio = { version = "1", features = ["rt", "net", "io-util", "macros", "signal", "time"] }
clap = { version = "4", features = ["derive"] }
clap_complete = "4"
ureq = "2"
url = "2"
mdns-sd = "*"
axoupdater = { version = "*", features = ["blocking"] }
swc_common = "*"
swc_ecma_ast = "*"
swc_ecma_codegen = "*"
swc_ecma_minifier = "*"
swc_ecma_parser = "*"
swc_ecma_transforms_base = "*"

[dev-dependencies]
serde_json = "1"
