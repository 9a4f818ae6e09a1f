[package]
name = "paperlint"
version = "0.1.0"
edition = "2021"
publish = false

[dependencies]
regex = "=1.13.1"
jieba-rs = "=0.11.0"
tree-sitter = "=0.27.1"
tree-sitter-latex = "=0.1.0"
unicode-segmentation = "=1.13.3"
unicode-width = "=0.2.3"
clap = { version = "=4.6.7", features = ["derive"] }
serde = { version = "=1.0.229", features = ["derive"] }
serde_json = "=1.0.154"
toml = "=1.1.8"
thiserror = "=2.0.21"
concolor = { version = "=0.1.1", features = ["api", "auto"] }
