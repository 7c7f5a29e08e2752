[package]
name = "yallma3_llm"
version = "0.1.0"
edition = "2021"
publish = false

[dependencies]
half = "=2.7.1"
hxd = "=0.1.3"
memmap2 = "=0.9.12"
minijinja = { version = "=2.24.0", features = ["loader"] }
num_cpus = "=1.17.0"
rayon = "=1.12.0"
regex = "=1.13.1"
serde_json = "=1.0.154"
wide = "=0.7.33"
