[package]
name = "fox_llm"
version = "0.1.0"
edition = "2021"
publish = false

[dependencies]
anyhow = "1"
axum = "*"
chrono = "0.4"
console = "*"
dialoguer = { version = "*", features = ["fuzzy-select"] }
jsonschema = { version = "*", default-features = false }
reqwest = { version = "*", default-features = false, features = ["json"] }
rmcp = { version = "*", features = ["client", "server", "macros", "transport-streamable-http-client-reqwest", "transport-streamable-http-server"] }
rusqlite = { version = "*", features = ["bundled"] }
rustyline = "*"
schemars = "1"
serde = { version = "1", features = ["derive"] }
serde_json = "1"
tokio = { version = "1", features = ["full"] }
uuid = { version = "1", features = ["v4"] }
webbrowser = "1"
