[package]
name = "sapling_components"
version = "0.1.0"
edition = "2021"
publish = false

[dependencies]
bls12_381 = "0.8"
ff = "0.13"
group = "0.13"
jubjub = "0.10"
zcash_encoding = "0.2"
zcash_note_encryption = "0.4"
