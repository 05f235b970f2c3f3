[package]
name = "food_inspections"
version = "0.1.0"
edition = "2021"
publish = false

[dependencies]
chrono = "0.4"
toml = "0.8"
glob = "0.3"
serde = { version = "1", features = ["derive"] }
serde_derive = "1"
serde_json = "1"
dotenv = "0.15"
lazy_static = "1"
diesel = { version = "2", features = ["postgres", "r2d2", "chrono"] }
r2d2 = "0.8"
curl = { version = "0.4", default-features = false }
rocket = { version = "0.5", features = ["json"] }
tera = { version = "1", default-features = false }
serde_xml = "0.9"
