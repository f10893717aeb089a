[package]
name = "croniq"
version = "0.1.0"
edition = "2021"
publish = false

[dependencies]
chrono = "=0.4.45"
chrono-tz = "=0.10.4"
sha2 = "=0.10.9"
hex = "=0.4.3"
rand = "=0.9.5"
bcrypt = "=0.17.1"
uuid = { version = "=1.29.0", features = ["v4"] }
similar = "=2.7.0"
serde = { version = "=1.0.229", features = ["derive"] }
serde_json = { version = "=1.0.154", features = ["raw_value"] }
glob = "=0.3.4"
aes-gcm = "0.10"
hkdf = "0.12"
base64 = "=0.22.1"
totp-rs = { version = "5", features = ["gen_secret"] }
urlencoding = "2"
jsonwebtoken = "9"
