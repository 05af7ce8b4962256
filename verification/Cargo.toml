[package]
name = "riposte_client"
version = "0.1.0"
edition = "2021"
publish = false

[dependencies]
ahash = "=0.7.8"
smallvec = "=1.16.4"
indexmap = "=1.9.3"
anyhow = "=1.0.104"
thiserror = "=1.0.69"
glam = "=0.20.5"
rand = "=0.8.8"
heck = "=0.4.1"
directories-next = "2"
