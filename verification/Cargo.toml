[package]
name = "table_providers"
version = "0.1.0"
edition = "2021"
publish = false

[dependencies]
adbc_core = "=0.24.0"
r2d2 = "0.8"
arrow-array = "=59.3.2"
arrow-cast = "=59.3.2"
arrow-data = "=59.3.2"
arrow-json = "=59.3.2"
arrow-schema = "=59.3.2"
async-trait = "0.1"
bigdecimal = "=0.4.11"
bson = "=2.15.0"
chrono = { version = "=0.4.45", default-features = false, features = ["std"] }
datafusion-common = { version = "=55.2.0", default-features = false, features = ["sql"] }
datafusion-execution = { version = "=55.2.0", default-features = false }
datafusion-expr = "=55.2.0"
datafusion-physical-expr = { version = "=55.2.0", default-features = false }
datafusion-physical-plan = { version = "=55.2.0", default-features = false }
futures = "0.3"
geo-types = "0.7"
mongodb = { version = "=3.9.1", default-features = false, features = ["compat-3-0-0", "rustls-tls"] }
rusqlite = { version = "=0.40.2", features = ["bundled"] }
rust_decimal = { version = "=1.43.0", default-features = false, features = ["std", "db-postgres"] }
serde_json = "1"
sqlparser = { version = "=0.62.0", features = ["visitor"] }
tokio = { version = "1", features = ["rt", "sync"] }
tokio-postgres = { version = "=0.7.18", features = ["with-chrono-0_4", "with-geo-types-0_7", "with-uuid-1"] }
uuid = "1"
