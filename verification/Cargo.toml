[package]
name = "hostfacts"
version = "0.1.0"
edition = "2021"
publish = false

[dependencies]
dbus = "*"
libc = "*"
procfs = "*"
termion = "*"
textwrap = "*"
