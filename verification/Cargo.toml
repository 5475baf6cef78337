[package]
name = "matter"
version = "0.1.0"
edition = "2021"
publish = false

[dependencies]
aes = "=0.7.5"
ccm = "=0.4.4"
hkdf = "=0.11.0"
sha2 = "=0.9.9"
rand = "=0.8.8"
heapless = "=0.7.17"
openssl = "=0.10.81"
log = "=0.4.34"
async-channel = "=1.9.0"
