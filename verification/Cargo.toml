[package]
name = "docrag"
version = "0.1.0"
edition = "2021"
publish = false

[dependencies]
pdf-extract = "0.7"
notify = { version = "6", default-features = false }
pgvector = { version = "0.4", default-features = false, features = ["postgres"] }
rocket = { version = "0.5", default-features = false, features = ["json"] }
rocket_db_pools = { version = "0.2", default-features = false, features = ["deadpool_postgres"] }
dotenv = "0.15"
indicatif = "0.17"
