[package]
name = "dota_localization_changer"
version = "0.1.0"
edition = "2021"
publish = false

[dependencies]
log = "0.4"
serde = { version = "1", features = ["derive"] }
serde_json = "1"
dirs = "*"
chrono = "0.4"
fern = "*"
valve_pak = "*"
qmetaobject = "*"

[dev-dependencies]
regex = "1"
