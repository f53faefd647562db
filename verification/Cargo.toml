[package]
name = "weather_station"
version = "0.1.0"
edition = "2021"
publish = false

[dependencies]
anyhow = "1"
log = "0.4"
bme280 = "*"
embedded-svc = "*"
esp-idf-svc = "*"
