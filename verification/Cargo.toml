[package]
name = "blobfox-template"
version = "0.1.0"
edition = "2021"
publish = false

[dependencies]
xmltree = { version = "=0.12.0", features = ["attribute-order"] }
css-color-parser = "=0.1.2"
serde = { version = "=1.0.229", features = ["derive"] }
toml = "=1.1.6"
serde_yaml = "=0.9.34"
clap = { version = "=4.6.7", features = ["derive"] }
wax = "=0.7.0"
mkdirp = "=1.0.0"
png = "=0.18.1"
resvg = "=0.48.1"
tiny-skia = "=0.12.0"
usvg = "=0.48.1"
