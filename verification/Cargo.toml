[package]
name = "pub_sub_client"
version = "0.1.0"
edition = "2021"
publish = false

[dependencies]
base64 = "*"
goauth = "*"
reqwest = { version = "*", default-features = false, features = ["json"] }
serde = { version = "*", features = ["derive"] }
serde_json = "*"
smpl_jwt = "*"
