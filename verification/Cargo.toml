[package]
name = "sheetpipe"
version = "0.1.0"
edition = "2021"
publish = false

[dependencies]
actix-files = "*"
actix-multipart = "*"
actix-web = "*"
calamine = { version = "*", features = ["dates"] }
chrono = "*"
futures-util = "*"
rayon = "*"
serde = { version = "*", features = ["derive"] }
serde_json = "*"
xlsxwriter = "*"
zip = "*"
