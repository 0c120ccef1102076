[package]
name = "building_blocks"
version = "0.1.0"
edition = "2021"
publish = false

[dependencies]
iceoryx2-bb-elementary = "=0.5.0"
iceoryx2-pal-configuration = "=0.5.0"
