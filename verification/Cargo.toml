[package]
name = "stormlight_shared"
version = "0.1.0"
edition = "2021"
publish = false

[dependencies]
bevy = { version = "0.18", default-features = false }
lightyear = { version = "0.26", default-features = false }
lightyear_serde = "0.26"
serde = { version = "1", features = ["derive"] }
derive_more = { version = "2", features = ["deref", "deref_mut"] }
