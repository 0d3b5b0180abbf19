[package]
name = "medbook_orderservice"
version = "0.1.0"
edition = "2021"
publish = false
