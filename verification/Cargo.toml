[package]
name = "db721"
version = "0.1.0"
edition = "2021"
publish = false

[dependencies]
env_logger = "=0.11.11"
log = "=0.4.34"
memmap2 = "=0.9.12"
pgx = "=0.6.1"
serde = { version = "=1.0.229", features = ["derive"] }
serde_json = "=1.0.154"
supabase-wrappers = "=0.1.8"
