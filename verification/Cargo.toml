[package]
name = "supabase_viewer"
version = "0.1.0"
edition = "2021"
publish = false

[dependencies]
serde = { version = "1", features = ["derive"] }
serde_json = "1"
eframe = { version = "0.31", default-features = false, features = ["glow", "x11", "default_fonts"] }
reqwest = { version = "0.12", default-features = false, features = ["blocking"] }
rfd = { version = "0.15", default-features = false, features = ["xdg-portal", "tokio"] }
