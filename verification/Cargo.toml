[package]
name = "thebook"
version = "0.3.0"
edition = "2021"
publish = false

[dependencies]
crossterm = "*"
dirs = "*"
termimad = "*"
walkdir = "*"
webbrowser = "*"
