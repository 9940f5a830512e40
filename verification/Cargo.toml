[package]
name = "vcs-flow-commit"
version = "0.1.0"
edition = "2021"
publish = false

[dependencies]
clap = { version = "4", features = ["derive"] }
dirs = "6"
processkit = "0.6"
ratatui = "0.29"
serde = { version = "1", features = ["derive"] }
serde_json = "1"
syntect = { version = "5", default-features = false, features = ["default-fancy"] }
tokio = { version = "1", features = ["macros", "rt-multi-thread", "time"] }
toml = "0.8"
tui-textarea = "0.7"
tui-tree-widget = "0.23"
vcs-core = "0.2"
vcs-git = "0.4"
vcs-github = "0.4"
vcs-jj = "0.4"
