[package]
name = "jukctl"
version = "0.1.0"
edition = "2021"
publish = false

[dependencies]
log = "=0.4.35"
anstyle = "=1.0.14"
clap = { version = "=4.6.7", features = ["derive"] }
indicatif = "=0.18.6"
once_cell = "=1.21.4"
postcard = { version = "=1.1.3", features = ["use-std"] }
serialport = { version = "=4.10.1", default-features = false }
roxmltree = "*"
svg2gcode = "=0.3.4"
g-code = "*"
svgtypes = "*"
thiserror = "=2.0.21"
