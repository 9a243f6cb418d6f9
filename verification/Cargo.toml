[package]
name = "dictionary"
version = "0.1.0"
edition = "2021"
publish = false

[dependencies]
argon2 = { version = "0.5", features = ["std"] }
password-hash = { version = "0.5", features = ["std"] }
hmac = "0.12"
sha2 = "0.10"
subtle = "2"
rocket = { version = "0.5", features = ["json"] }
rocket_db_pools = { version = "0.2", features = ["diesel_postgres"] }
diesel = "2.1"
dotenvy = "0.15"
