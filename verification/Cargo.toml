[package]
name = "rf64"
version = "0.1.0"
edition = "2021"
publish = false

[dependencies]
usbd-midi = "=0.3.0"
usb-device = "=0.3.2"
avr-device = { version = "=0.9.0", features = ["atmega32u4"] }
