[package]
name = "cargo-scholium"
version = "0.1.0"
edition = "2021"
publish = false

[dependencies]
proc-macro2 = { version = "=1.0.107", features = ["span-locations"] }
syn = { version = "=3.0.9", features = ["full", "visit", "parsing", "printing", "extra-traits"] }
unicode-ident = "=1.0.27"
serde = { version = "=1.0.229", features = ["derive"] }
serde_json = "=1.0.154"
nu-ansi-term = "=0.50.3"
toml = "=1.2.1"
clap = { version = "=4.6.7", features = ["derive", "env"] }
cargo_metadata = "=0.23.1"
walkdir = "=2.5.0"
indexmap = { version = "=2.14.2", features = ["rayon"] }
rayon = "=1.12.0"
tracing = "=0.1.44"
tracing-core = "=0.1.36"
tracing-subscriber = { version = "=0.3.23", features = ["env-filter", "json", "fmt", "ansi"] }
