[package]
name = "oneagent"
version = "0.1.0"
edition = "2021"
publish = false
