[package]
name = "hintable"
version = "0.1.0"
edition = "2021"
publish = false

[dependencies]
p3-baby-bear = "=0.1.0"
p3-field = "=0.1.0"
p3-commit = "=0.1.0"
p3-fri = "=0.1.0"
p3-merkle-tree = "=0.1.0"
p3-poseidon2 = "=0.1.0"
p3-symmetric = "=0.1.0"
serde = { version = "1", features = ["derive"] }
async-trait = "0.1"
derivative = "2.2.0"
openvm-circuit = "2.0.2"
openvm-stark-backend = "2.0.1"
