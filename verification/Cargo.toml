[package]
name = "pneumatic_core"
version = "0.1.0"
edition = "2021"
publish = false

[dependencies]
aes-gcm = "*"
async-trait = "0.1"
chrono = "0.4"
dashmap = "*"
ed25519-dalek = "2"
file-lock = "*"
futures = "0.3"
getrandom = "0.2"
hex = "0.4"
hkdf = "*"
hmac = "*"
libc = "0.2"
log = "0.4"
moka = { version = "0.12", features = ["sync"] }
pqcrypto-mldsa = "*"
pqcrypto-mlkem = "*"
pqcrypto-traits = "*"
rand = "0.8"
ring = "0.17"
rmp-serde = "1"
serde = { version = "1", features = ["derive"] }
serde_json = "1"
sha2 = "*"
strum = "0.27"
strum_macros = "0.27"
tokio = { version = "1", features = ["full"] }
x25519-dalek = { version = "*", features = ["static_secrets", "getrandom"] }
