[package]
name = "pdf_shard"
version = "0.1.0"
edition = "2021"
publish = false

[dependencies]
image = "*"
lopdf = "*"
pdfium-render = "*"
serde = { version = "1", features = ["derive"] }
serde_json = "1"
thiserror = "*"
