[package]
name = "ehatrom"
version = "0.1.0"
edition = "2021"
publish = false

[dependencies]
i2cdev = "*"
serialport = { version = "*", default-features = false }
embedded-hal = "*"
embedded-graphics = "*"
linux-embedded-hal = "*"
ssd1306 = "*"
