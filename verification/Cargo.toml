[package]
name = "peernotes"
version = "0.1.0"
edition = "2021"
publish = false

[dependencies]
iroh = { version = "=1.3.0", default-features = false }
iroh-blobs = { version = "=0.103.1", default-features = false }
iroh-gossip = { version = "=0.101.0", default-features = false, features = ["net"] }
n0-future = { version = "=0.3.2", default-features = false }
tokio = { version = "=1.53.2", default-features = false, features = ["rt"] }
