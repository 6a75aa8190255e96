[package]
name = "cpu_top"
version = "0.1.0"
edition = "2021"
publish = false

[dependencies]
crossterm_cursor = "*"
sysinfo = "*"
term_size = "*"
