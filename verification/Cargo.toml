[package]
name = "apix"
version = "0.1.6"
edition = "2021"
publish = false

[dependencies]
clap = { version = "4", features = ["derive"] }
clap_complete = "4"
colored = "2"
dirs = "5"
grep-regex = "0.1"
grep-searcher = "0.1"
ignore = "0.4"
oas3 = "*"
regex = "1"
serde = { version = "1", features = ["derive"] }
serde_json = "1"
serde_yaml = "0.9"
termimad = "*"
textwrap = "0.16"
thiserror = "2"
toml = "0.8"
ureq = "2"
url = "2"
