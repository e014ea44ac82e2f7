[package]
name = "spli"
version = "0.1.0"
edition = "2021"
publish = false

[dependencies]
num_cpus = "=1.17.0"
replace_with = "=0.1.8"
scoped-pool = "=1.0.0"
rustyline = "=9.1.2"
show-my-errors = "=0.1.3"

[dev-dependencies]
nom = "=5.1.3"
nom_locate = "=2.1.0"
nom-greedyerror = "=0.2.0"
