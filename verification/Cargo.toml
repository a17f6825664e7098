[package]
name = "zombie_sim"
version = "0.1.0"
edition = "2021"
publish = false

[dependencies]
rand = "=0.6.5"
rand_xorshift = "=0.1.1"
sdl2 = "0.32"
