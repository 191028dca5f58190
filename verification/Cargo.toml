[package]
name = "medial_axis_3d"
version = "0.1.0"
edition = "2021"

[dependencies]
nalgebra = "*"
raylib = "3.7"
