[package]
name = "git_utils"
version = "0.1.0"
edition = "2021"
publish = false

[dependencies]
git2 = "*"
log = "*"
env_logger = "*"
