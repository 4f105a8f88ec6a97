[package]
name = "ohnotel"
version = "0.1.0"
edition = "2021"
publish = false

[dependencies]
arc-swap = "*"
hashbrown = "*"
libc = "*"
log = "*"
num-traits = "*"
opentelemetry-proto = { version = "*", default-features = false, features = ["gen-tonic", "metrics"] }
ordered-float = "*"
serde = { version = "*", features = ["derive"] }
thiserror = "*"
tokio = { version = "*", features = ["sync", "time", "rt", "rt-multi-thread", "io-std", "io-util", "macros"] }
tonic = { version = "*", features = ["transport"] }
