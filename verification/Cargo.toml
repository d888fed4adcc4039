[package]
name = "thunder"
version = "0.1.0"
edition = "2021"
publish = false

[dependencies]
meshopt = "=0.7.0"
gltf = { version = "=1.4.1", features = ["KHR_lights_punctual", "extensions", "extras"] }
glam = "=0.34.1"
tokio = { version = "=1.54.1", features = ["rt-multi-thread", "fs", "io-util", "macros"] }
futures = "=0.3.34"
structopt = "=0.3.26"
basis-universal = "=0.3.1"
physx = "=0.11.0"
