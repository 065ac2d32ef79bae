[package]
name = "rusthesia"
version = "0.1.0"
edition = "2021"
publish = false

[dependencies]
piano_keyboard = "*"
midly = "*"
midir = "*"
clap = "2"
sdl2 = "*"
