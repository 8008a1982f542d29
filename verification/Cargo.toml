[package]
name = "eth_light_client"
version = "0.1.0"
edition = "2021"
publish = false

[dependencies]
eth2_hashing = "=0.2.0"
tree_hash = "=0.4.0"
eth2_ssz_types = "=0.2.1"
tiny-keccak = { version = "=2.0.2", features = ["keccak"] }
rlp = "=0.5.2"
ckb-merkle-mountain-range = "=0.6.1"
cita_trie = "=5.0.1"
hasher = { version = "=0.1.4", features = ["hash-keccak"] }
ethers-core = { version = "=2.0.14", default-features = false }
blst = "=0.3.17"
