[package]
name = "pinterest-downloader"
version = "0.1.0"
edition = "2021"
publish = false

[dependencies]
regex = "1"
ureq = "2"
eframe = { version = "0.33", default-features = false, features = ["default_fonts", "glow", "x11"] }
rfd = "0.15"
