[package]
name = "literate_docs"
version = "0.1.0"
edition = "2021"
publish = false

[dependencies]
markdown = "=1.0.0"
mdast_util_to_markdown = "=0.0.2"
pulldown-cmark = "=0.13.6"
pulldown-cmark-to-cmark = "=21.1.0"
similar = "=3.2.1"
tokio = { version = "=1.54.1", features = ["full"] }
ratatui = "=0.30.2"
crossterm = "=0.29.0"
