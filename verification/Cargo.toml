[package]
name = "fair_assignment"
version = "0.1.0"
edition = "2021"
publish = false

[dependencies]
matchmaker = "=0.1.0"
rand = "=0.7.3"
