[package]
name = "zim_reader"
version = "0.1.0"
edition = "2021"
publish = false

[dependencies]
lzma-rs = "=0.3.0"
memmap2 = "=0.9.12"
ruzstd = "=0.9.1"
thiserror = "=2.0.21"

[dev-dependencies]
xz2 = "=0.1.7"
zstd = "=0.13.4"
