[package]
name = "particle_simulator"
version = "0.1.0"
edition = "2021"

[dependencies]
flo_canvas = "0.3"
flo_draw = "0.3"
rand = "0.8"

[dev-dependencies]
ordered-float = "3"
