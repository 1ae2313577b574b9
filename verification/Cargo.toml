[package]
name = "ptpip_core"
version = "0.1.0"
edition = "2021"
publish = false

[dependencies]
byteorder = "1"
libc = "0.2"
log = "0.4"
rand = "0.8"
