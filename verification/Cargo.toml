[package]
name = "firm_mesh"
version = "0.1.0"
edition = "2021"
publish = false

[dependencies]
serde = { version = "1", features = ["derive"] }
serde_yaml = "*"
openldap = "*"
rpassword = "*"
