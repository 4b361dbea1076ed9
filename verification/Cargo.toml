[package]
name = "hexgame"
version = "0.1.0"
edition = "2021"
publish = false

[dependencies]
priority-queue = "*"
godot = "*"
gdnative = "0.9"
bevy_ecs = "0.5"
bevy_app = "0.5"
bevy_tasks = "0.5"
crossbeam = "0.7"
