[package]
name = "svg_render"
version = "0.1.0"
edition = "2021"
publish = false

[dependencies]
serde_yaml = "*"
structopt = "*"
rayon = "*"
num_cpus = "*"
log = "*"
flexi_logger = "*"
resvg = "*"
