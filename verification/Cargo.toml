[package]
name = "war3parser"
version = "0.1.0"
edition = "2021"
publish = false

[dependencies]
flate2 = "=1.1.10"
adler32 = "=1.2.0"
getopts = "=0.2.24"
image-blp = "=1.2.0"
image = { version = "=0.24.9", default-features = false, features = ["tga", "png", "jpeg"] }
base64 = "=0.21.7"
sha2 = "0.10"

[dev-dependencies]
