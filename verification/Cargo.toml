[package]
name = "halo2_playground"
version = "0.1.0"
edition = "2021"
publish = false

[dependencies]
halo2_proofs = { version = "=0.4.0", features = ["dev-graph"] }
halo2_gadgets = "=0.6.0"
halo2_poseidon = { version = "=0.2.0", features = ["test-dependencies"] }
pasta_curves = "=0.6.0"
plotters = "=0.3.7"

[dev-dependencies]
rand_core = { version = "=0.6.4", features = ["getrandom"] }
