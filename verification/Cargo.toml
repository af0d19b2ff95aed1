[package]
name = "timetrack_jr"
version = "0.1.0"
edition = "2021"
publish = false

[dependencies]
chrono = "0.4"
chrono-english = "0.1"
clap = { version = "4", features = ["derive"] }
icalendar = "0.15"
notify-rust = "4"
rusqlite = "0.29"
serde = { version = "1", features = ["derive"] }
serde_json = "1"

[dev-dependencies]
regex = "1"
