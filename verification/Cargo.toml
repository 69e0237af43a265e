[package]
name = "cube_timer"
version = "0.1.0"
edition = "2021"
publish = false

[dependencies]
chrono = "0.4"
instant = "0.1"
eframe = "0.12"
