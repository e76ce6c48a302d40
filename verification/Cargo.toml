[package]
name = "text_editor"
version = "0.1.0"
edition = "2021"
publish = false

[dependencies]
unicode-segmentation = "1"
ratatui = "0.29"
