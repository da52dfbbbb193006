[package]
name = "awesome_sails"
version = "0.1.0"
edition = "2021"
publish = false

[dependencies]
hashbrown = "*"
primitive-types = { version = "*", default-features = false }
parity-scale-codec = { version = "3", default-features = false, features = ["derive"] }
scale-info = { version = "2", default-features = false, features = ["derive"] }
thiserror = { version = "2", default-features = false }
gprimitives = "*"
gstd = "*"
sails-rs = "*"
keccak-const = "*"

[dev-dependencies]
bnum = "*"
