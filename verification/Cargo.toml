[package]
name = "mosaic"
version = "0.1.0"
edition = "2021"
publish = false

[dependencies]
docopt = "=1.1.1"
image = { version = "=0.24.9", default-features = false, features = ["jpeg", "png"] }
# Named only to switch on `platform_independent`: without it the JPEG decoder
# picks a processor-specific routine at run time, and the same file would
# decode to different samples on different machines.
jpeg-decoder = { version = "=0.3.2", default-features = false, features = ["platform_independent"] }
rand = "=0.8.8"
