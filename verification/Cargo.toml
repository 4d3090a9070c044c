[package]
name = "pavi"
version = "0.1.0"
edition = "2021"
publish = false

[dependencies]
anyhow = "1"
arrow-array = "58"
arrow-ord = "58"
arrow-schema = "58"
arrow-select = "58"
chrono = "0.4"
clap = { version = "4", features = ["derive"] }
eframe = { version = "0.31", default-features = false, features = ["default_fonts", "glow", "x11"] }
egui = { version = "0.31", default-features = false }
egui_extras = { version = "0.31", default-features = false }
parquet = { version = "58", default-features = false, features = ["arrow", "snap"] }
rfd = { version = "0.17", default-features = false, features = ["xdg-portal"] }
serde = { version = "1", features = ["derive"] }
serde_json = "1"
sqlparser = "0.61"

[dev-dependencies]
tempfile = "3"
