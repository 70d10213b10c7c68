[package]
name = "hub_mesh"
version = "0.1.0"
edition = "2021"
publish = false

[dependencies]
facet = "*"
facet-json = "*"
vox = "*"
tokio = { version = "*", features = ["full"] }
uuid = { version = "*", features = ["v4"] }
async-trait = "*"
tonic = { version = "*", default-features = false }
