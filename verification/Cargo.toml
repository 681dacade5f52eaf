[package]
name = "covalent"
version = "0.1.0"
edition = "2021"
publish = false

[dependencies]
blake3 = "=1.8.7"
blake2b-ref = "=0.3.1"
sha3 = "=0.12.0"
secp256k1 = { version = "=0.24.3", features = ["recovery", "rand-std"] }
cita_trie = "=6.0.2"
cita-hasher = { version = "=0.1.0", features = ["hash-keccak"] }
sparse-merkle-tree = { version = "=0.5.3", features = ["blake2b"] }
ophelia = "=0.3.4"
ophelia-secp256k1 = "=0.3.9"
merkle-cbt = "=0.3.2"
rlp = "=0.6.1"
sled = "=0.34.7"
serde = { version = "*", features = ["derive"] }
toml = "*"
clap = { version = "*", features = ["derive"] }
tempfile = "*"
