[package]
name = "polygraph"
version = "0.1.0"
edition = "2021"

[dependencies]
spargebra = { version = "=0.4.8", features = ["sparql-12"] }
oxigraph = { version = "=0.5.13", default-features = false, features = ["rdf-12"] }
pest = "=2.9.5"
thiserror = "=2.0.21"
