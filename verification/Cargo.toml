[package]
name = "cond_prob_sim"
version = "0.1.0"
edition = "2021"
publish = false

[dependencies]
rand = "*"
