[package]
name = "scene_layout"
version = "0.1.0"
edition = "2021"
publish = false

[dependencies]
clingo = { version = "0.7", features = ["static-linking"] }
parry3d = "0.8"
rand = "0.8"
raylib = "3.7"
rlua = "0.19"
