[package]
name = "kompanion"
version = "4.1.0"
edition = "2021"
publish = false

[dependencies]
sha1 = "0.10"
hex = "0.4"
base64 = "0.22"
serde_json = "1"
serde = { version = "1", features = ["derive"] }
quick-xml = { version = "*", features = ["serialize"] }
zip = { version = "*", default-features = false, features = ["deflate"] }
epub-stream = "*"
fb2 = "*"
filetime = "*"
libc = "*"
url = "2"
ureq = { version = "3", default-features = false }
