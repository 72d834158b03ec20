[package]
name = "amdgpu-control"
version = "0.1.0"
edition = "2021"
publish = false

[dependencies]
regex = "1"
serde = { version = "1", features = ["derive"] }
serde_json = "1"
thiserror = "*"
glib = "*"
gio = "*"
gtk4 = "*"
libadwaita = { version = "*", features = ["v1_4"] }
ksni = { version = "*", features = ["blocking"] }
