[package]
name = "expr_lang"
version = "0.3.1"
edition = "2021"
publish = false
