[package]
name = "tree_tui"
version = "0.1.0"
edition = "2021"
publish = false

[dependencies]
glob = "0.3"
tui-input = "0.11"
ratatui = "0.29"
clap = { version = "4", features = ["derive"] }
serde = { version = "1", features = ["derive"] }
toml = "0.8"
directories = "5"
ignore = "0.4"
color-eyre = "0.6"
arboard = { version = "3", default-features = false }
