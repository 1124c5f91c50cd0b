[package]
name = "farm_core"
version = "0.1.0"
edition = "2021"
publish = false

[dependencies]
anyhow = "1"
async-trait = "0.1"
bimap = "0.6"
indexmap = "2"
kameo = "*"
slotmap = "1"
thiserror = "*"
tokio = { version = "1", features = ["macros", "rt-multi-thread", "signal", "sync", "time"] }
