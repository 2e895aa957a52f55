[package]
name = "edc2svd"
version = "0.1.0"
edition = "2021"
publish = false

[dependencies]
fern = "=0.7.1"
getopts = "=0.2.24"
log = "=0.4.34"
xmltree = "=0.9.0"
