[package]
name = "konform"
version = "0.1.1"
edition = "2021"
publish = false

[dependencies]
anyhow = "=1.0.104"
bincode = "=2.0.1"
cachedir = "=0.3.1"
clap = { version = "=4.6.7", features = ["derive", "env"] }
dashmap = "=6.2.1"
filetime = "=0.2.29"
get-size2 = "=0.10.0"
globset = "=0.4.21"
ignore = "=0.4.34"
lsp-server = "=0.10.0"
lsp-types = "=0.97.0"
notify = "=8.2.1"
owo-colors = "=4.4.0"
rayon = "=1.12.0"
regex = "=1.13.1"
ruff_python_ast = "=0.0.5"
ruff_python_parser = "=0.0.5"
ruff_text_size = "=0.0.5"
seahash = "=4.1.0"
serde = { version = "=1.0.229", features = ["derive"] }
serde_json = "=1.0.154"
serde_yaml = "=0.9.34"
similar = "=2.7.0"
toml = "=0.8.23"
toml_edit = "=0.22.27"
zed_extension_api = "=0.7.0"
