[package]
name = "esp_guessing"
version = "0.1.0"
edition = "2021"
publish = false

[dependencies]
anyhow = "1"
log = "0.4"
critical-section = "1"
embedded-graphics = "0.8"
embedded-svc = "0.25"
esp-idf-hal = "0.41"
esp-idf-svc = "0.46"
esp-idf-sys = "0.33"
sh1106 = "0.5"
