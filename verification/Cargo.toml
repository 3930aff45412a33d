[package]
name = "tetr"
version = "0.1.0"
edition = "2021"
publish = false

[dependencies]
rand = "0.8"
vec_map = "0.8"
serde = { version = "1", features = ["derive"] }
bincode = "1"
docopt = "1"
byte_conv = "*"
fixed_circular_buffer = "*"
piston = "*"
piston2d-graphics = "*"
piston2d-opengl_graphics = "*"
pistoncore-glutin_window = "*"
