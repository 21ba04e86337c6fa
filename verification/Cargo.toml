[package]
name = "encryption_cli"
version = "0.1.0"
edition = "2021"
publish = false

[dependencies]
aes-gcm = "0.10"
anyhow = "1"
rand = "0.8"
rand_pcg = "0.3"
rand_seeder = "0.2"
