[package]
name = "switcheroo"
version = "0.1.0"
edition = "2021"
publish = false

[dependencies]
anyhow = "=1.0.104"
global-hotkey = "=0.9.0"
iced = { version = "=0.14.0", default-features = false, features = ["image-without-codecs", "tiny-skia", "tokio", "x11"] }
nucleo-matcher = "=0.3.1"
objc2 = "=0.6.5"
objc2-app-kit = "=0.3.2"
objc2-application-services = "=0.3.2"
objc2-core-foundation = "=0.3.2"
objc2-core-graphics = "=0.3.2"

[dev-dependencies]
half = "=2.7.1"
