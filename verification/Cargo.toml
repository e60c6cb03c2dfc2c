[package]
name = "ai_pdf_writer"
version = "0.1.0"
edition = "2021"
publish = false

[dependencies]
owned_ttf_parser = "*"
rustybuzz = "*"
subsetter = "*"
flate2 = "*"
image = { version = "*", default-features = false, features = ["jpeg", "png"] }
serde = { version = "*", features = ["derive"] }
serde_json = "*"
zip = { version = "*", default-features = false, features = ["deflate"] }
