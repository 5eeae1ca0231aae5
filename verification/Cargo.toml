[package]
name = "source_viewer"
version = "0.1.0"
edition = "2021"
publish = false

[dependencies]
object = { version = "=0.40.0", features = ["write"] }
gimli = { version = "=0.34.0", features = ["write"] }
addr2line = "=0.27.1"
capstone = "=0.14.0"
fallible-iterator = "=0.3.0"
clap = { version = "=4.6.7", features = ["derive"] }
colored = "=3.1.1"
crossterm = "=0.25.0"
tui = "=0.19.0"
directories = "=6.0.0"
serde = { version = "=1.0.229", features = ["derive"] }
toml = "=1.1.6"
