[package]
name = "darkfi"
version = "0.1.0"
edition = "2021"
publish = false

[dependencies]
bellman = "=0.13.1"
bls12_381 = "=0.7.1"
jubjub = "=0.9.0"
group = "=0.12.1"
pairing = "=0.22.0"
blake2s_simd = "=1.0.5"
bs58 = "=0.5.1"
serde_json = "*"
async-std = "*"
async-channel = "*"
async-executor = "*"
async-trait = "*"
futures = "*"
smol = "*"
log = "*"
url = "*"
jsonrpc-core = "*"
