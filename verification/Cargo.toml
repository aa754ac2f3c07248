[package]
name = "q3bsp"
version = "0.1.0"
edition = "2021"
publish = false

[dependencies]
nom = "1.2.4"
glium = "*"
image = { version = "*", default-features = false, features = ["png", "jpeg", "gif", "webp", "pnm", "tiff", "tga", "bmp", "ico"] }
itertools = "*"
nalgebra = "*"
rand = "*"
eventual = "*"
