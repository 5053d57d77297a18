[package]
name = "slide_puzzle"
version = "0.1.0"
edition = "2021"
publish = false

[dependencies]
rand = "0.5"
image = { version = "*", default-features = false, features = ["jpeg", "png"] }
piston = "*"
piston2d-graphics = "*"
piston2d-opengl_graphics = "*"
pistoncore-glutin_window = "*"
tinyfiledialogs = "*"
