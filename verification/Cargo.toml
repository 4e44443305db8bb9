[package]
name = "marie-ssg"
version = "0.1.0"
edition = "2021"
publish = false

[dependencies]
argh = "=0.1.19"
autumnus = { version = "=0.7.8", default-features = false, features = ["lang-bash", "lang-css", "lang-html", "lang-javascript", "lang-json", "lang-python", "lang-rust", "lang-toml", "lang-typescript", "lang-yaml"] }
basic-toml = "=0.1.10"
blake3 = "=1.8.7"
fsevent = "=2.3.0"
inferno = { version = "=0.12.8", default-features = false }
markdown = "=1.0.0"
minijinja = { version = "=2.24.0", features = ["loader"] }
minijinja-contrib = { version = "=2.24.0", features = ["datetime"] }
rayon = "=1.12.0"
serde = { version = "=1.0.229", features = ["derive"] }
thiserror = "=2.0.21"
time = { version = "=0.3.55", features = ["formatting", "parsing", "serde"] }
toml = "=1.1.8"
tracing = "=0.1.44"
tracing-chrome = "=0.7.2"
tracing-flame = "=0.2.0"
tracing-subscriber = { version = "=0.3.23", features = ["env-filter"] }
walkdir = "=2.5.0"
