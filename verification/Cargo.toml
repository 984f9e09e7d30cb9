[package]
name = "rusty_radio"
version = "0.1.0"
edition = "2021"
publish = false

[dependencies]
httparse = { version = "=1.10.1", default-features = false }
csv-core = "=0.1.13"
itoa = "=1.0.18"
nourl = "=0.1.5"
nb = "=1.1.0"
embedded-hal-nb = "=1.0.0"
embedded-hal-async = "=1.0.0"
embedded-io-async = "=0.6.1"
embassy-sync = "=0.7.2"
embassy-time = "=0.4.0"
