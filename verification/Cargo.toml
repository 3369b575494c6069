[package]
name = "spellck"
version = "0.1.0"
edition = "2021"
publish = false

[dependencies]
porter-stemmer = "*"
getopts = "=0.2.24"
