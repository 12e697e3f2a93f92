[package]
name = "phrase_router"
version = "0.1.0"
edition = "2021"
publish = false

[dependencies]
natural = "=0.5.0"
unicode-normalization = "=0.1.26"
rand = "=0.8.8"
nanoid = "=0.4.0"
teloxide = { version = "=0.12.2", default-features = false, features = ["macros", "ctrlc_handler", "rustls"] }
takecell = "=0.1.1"
dptree = "=0.3.0"
sqlx = { version = "=0.6.3", features = ["runtime-tokio-rustls", "sqlite"] }
tokio = { version = "1", features = ["macros", "rt-multi-thread"] }
miette = { version = "=5.10.0", features = ["fancy"] }
dotenvy = "=0.15.7"
tracing = "0.1"
tracing-subscriber = "0.3"
gcloud-sdk = { version = "=0.19.19", features = ["google-cloud-dialogflow-v2beta1"] }
tonic = "=0.8.3"
dirs = "=5.0.1"
