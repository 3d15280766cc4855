[package]
name = "screenplay_doc_parser_rs"
version = "0.1.0"
edition = "2021"
publish = false

[dependencies]
mupdf-basic-text-extractor = "*"
