[package]
name = "botmon"
version = "0.1.0"
edition = "2021"
publish = false

[dependencies]
argh = "=0.1.19"
aws-config = "=1.12.0"
aws-sdk-dynamodb = "=1.130.0"
chrono = "=0.4.45"
color-eyre = "=0.6.5"
crossterm = "=0.27.0"
fastrand = "=2.5.0"
fuzzy-matcher = "=0.3.7"
ratatui = "=0.26.3"
serde = { version = "=1.0.229", features = ["derive"] }
serde_dynamo = { version = "=4.3.0", features = ["aws-sdk-dynamodb+1"] }
serde_json = "=1.0.151"
throbber-widgets-tui = "=0.4.1"
tokio = { version = "=1.53.2", features = ["macros", "rt-multi-thread"] }
tui-input = "=0.8.0"
