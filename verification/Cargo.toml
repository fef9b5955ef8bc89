[package]
name = "hotspot_hub"
version = "0.1.0"
edition = "2021"
publish = false

[dependencies]
slint = { version = "1", default-features = false, features = ["std", "compat-1-2"] }
jni = "0.21"
libc = "0.2"
log = "0.4"
ndk-context = "0.1"
