[package]
name = "atom_vault"
version = "0.1.0"
edition = "2021"
publish = false

[dependencies]
argon2 = "0.5"
bincode = "1.3"
chacha20poly1305 = "0.10"
clap = { version = "4", features = ["derive"] }
ctrlc = { version = "3", features = ["termination"] }
data-encoding = "2"
dirs = "5"
ed25519-dalek = "2"
eff-wordlist = "1"
egui = "0.30"
fastcdc = "3"
getrandom = "0.3"
hkdf = "0.12"
landlock = "0.4"
libc = "0.2"
memfd = "0.6"
nix = { version = "0.30", features = ["term", "fs", "mman"] }
rand = "0.8"
reqwest = { version = "0.12", default-features = false, features = ["rustls-tls"] }
rfd = "0.15"
rpassword = "7"
scrypt = { version = "0.11", default-features = false }
secret-service = { version = "4", features = ["rt-tokio-crypto-rust"] }
serde = { version = "1", features = ["derive"] }
serde_json = "1"
sha2 = "0.10"
sha3 = "0.10"
spake2 = { version = "0.4", features = ["std"] }
tokio = { version = "1", features = ["full"] }
zeroize = "1"
