[package]
name = "bert_tokenizer"
version = "0.1.0"
edition = "2021"
publish = false

[dependencies]
indexmap = "*"
regex = "*"
serde = { version = "*", features = ["derive"] }
serde_json = "*"
unicode_categories = "*"
unicode-normalization = "*"
