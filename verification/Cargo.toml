[package]
name = "rosu_ur_calc"
version = "0.1.0"
edition = "2021"
publish = false

[dependencies]
osu-db = "*"
rosu-pp = "0.9"
