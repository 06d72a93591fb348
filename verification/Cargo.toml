[package]
name = "sonicsearch"
version = "0.1.0"
edition = "2021"
publish = false

[dependencies]
twox-hash = "=1.6.3"
chrono = "=0.4.45"
anyhow = "1"
futures = "0.3"
tokio = { version = "1", features = ["full"] }
walkdir = "2"
hound = "=3.5.1"
ndarray = "=0.15.6"
rubato = "=0.14.1"
mel_spec = "=0.2.2"
mel_spec_pipeline = "=0.2.2"
hnsw_rs = "=0.2.1"
tokenizers = { version = "=0.15.2", default-features = false, features = ["onig"] }
ort = { version = "=2.0.0-rc.15", default-features = false, features = ["std"] }
sqlx = { version = "=0.7.4", default-features = false, features = ["runtime-tokio", "sqlite"] }
