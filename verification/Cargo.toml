[package]
name = "ruffle_core"
version = "0.1.0"
edition = "2021"
publish = false

[dependencies]
fnv = "=1.0.7"
generational-arena = "=0.2.9"
log = "=0.4.34"
rand = { version = "=0.7.3", features = ["small_rng"] }
structopt = "=0.3.26"
