[package]
name = "astral"
version = "0.1.0"
edition = "2021"
publish = false

[dependencies]
sha2 = "=0.10.9"
serde = { version = "=1.0.229", features = ["derive"] }
serde_json = "=1.0.154"
thiserror = "=2.0.21"
clap = { version = "=4.6.7", features = ["derive", "env"] }
directories = "=6.0.0"
ignore = "=0.4.34"
notify = "=8.2.1"
tokio = { version = "=1.54.1", features = ["full"] }
tracing = "=0.1.44"
tracing-subscriber = { version = "=0.3.23", features = ["json", "env-filter"] }
mime_guess = "=2.0.5"
rusqlite = "=0.41.1"
oxc_allocator = "=0.143.0"
oxc_ast = "=0.143.0"
oxc_ast_visit = "=0.143.0"
oxc_parser = "=0.143.0"
oxc_resolver = "=11.24.3"
oxc_semantic = "=0.143.0"
oxc_span = "=0.143.0"
axum = "*"
rmcp = { version = "*", features = ["server", "transport-io", "macros"] }
schemars = "*"
rust-embed = "*"
