[package]
name = "acme_dns"
version = "0.1.0"
edition = "2021"
publish = false

[dependencies]
acme-lib = "*"
clap = "3.2"
packed_struct = "0.3"
packed_struct_codegen = "0.3"
