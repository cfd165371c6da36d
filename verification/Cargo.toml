[package]
name = "dropshot_api_manager"
version = "0.1.0"
edition = "2021"
publish = false

[dependencies]
anyhow = "=1.0.104"
camino = "=1.2.6"
clap = { version = "=4.6.7", features = ["derive", "env"] }
drift = "=0.2.0"
dropshot = "=0.18.0"
fs-err = "=3.3.2"
git-stub = "=1.0.0"
git-stub-vcs = "=0.1.0"
indent_write = "=2.2.0"
openapiv3 = "=2.2.0"
owo-colors = "=4.4.0"
rayon = "=1.12.0"
semver = "=1.0.28"
serde_json = "=1.0.154"
similar = "=2.7.0"
supports-color = "=3.0.2"
textwrap = { version = "=0.16.4", features = ["terminal_size"] }
thiserror = "=2.0.21"
