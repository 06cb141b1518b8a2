[package]
name = "bulletproofs_r1cs"
version = "0.1.0"
edition = "2021"
publish = false

[dependencies]
ark-ec = "0.3"
ark-ff = "0.3"
ark-std = "0.3"
ark-pallas = "0.3"
merlin = "3"
clear_on_drop = "0.2"
