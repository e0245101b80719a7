[package]
name = "osistack"
version = "0.1.0"
edition = "2021"
publish = false

[dependencies]
rtrb = "*"
rand = "0.8"
chrono = "*"
advmac = "*"
afpacket = "*"
netconfig = "*"
etherparse = "*"
log = "*"
simplelog = "*"
