[package]
name = "rslife"
version = "0.1.0"
edition = "2021"
publish = false

[dependencies]
rand = "0.8"
scan-rules = "0.2"
structopt = "0.3"
docopt = "1"
serde = { version = "1", features = ["derive"] }
piston = "*"
pistoncore-glutin_window = "*"
piston2d-opengl_graphics = "*"
piston2d-graphics = "*"
piston2d-drag_controller = "*"
