[package]
name = "anymock"
version = "0.1.0"
edition = "2021"

[dependencies]
rand = "0.9"
regex = "1"
serde_json = "1"
tungstenite = "0.26"
