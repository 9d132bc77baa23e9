[package]
name = "zk_claims"
version = "0.1.0"
edition = "2021"
publish = false

[dependencies]
halo2_proofs = "=0.4.0"
halo2_gadgets = "=0.6.0"
halo2curves = "=0.10.0"
