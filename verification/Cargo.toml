[package]
name = "soma"
version = "0.1.0"
edition = "2021"
publish = false

[dependencies]
url = "2"
toml = "*"
serde = { version = "1", features = ["derive"] }
bollard = "*"
tokio = { version = "1", features = ["rt"] }
futures = "0.3"
fs2 = "*"
dirs = "*"
tempfile = "3"
fs_extra = "*"
remove_dir_all = "*"
flate2 = "1"
tar = "*"
handlebars = "*"
clap = "4"
whoami = "*"
