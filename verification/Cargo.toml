[package]
name = "cast2gif"
version = "0.1.0"
edition = "2021"
publish = false

[dependencies]
ansi_colours = "=1.2.3"
anyhow = "=1.0.104"
better-panic = "=0.3.0"
clap = "=2.34.0"
colored = "=3.1.1"
env_logger = "=0.7.1"
flume = "=0.12.0"
font-kit = "=0.14.3"
gif = "=0.14.2"
imgref = "=1.12.3"
indicatif = "=0.15.0"
lazy_static = "=1.5.1"
log = "=0.4.34"
palette = "=0.5.0"
pathfinder_geometry = "=0.5.1"
rayon = "=1.12.0"
resvg = "=0.48.1"
rgb = "=0.8.53"
serde = { version = "=1.0.229", features = ["derive"] }
serde_json = "=1.0.154"
svg = "=0.18.0"
thiserror = "=2.0.21"
usvg = "=0.48.1"
vt100 = "=0.15.2"
