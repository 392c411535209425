[package]
name = "channel_spy"
version = "0.1.0"
edition = "2021"
publish = false

[dependencies]
chrono = "=0.4.45"
clap = { version = "=4.6.7", features = ["derive"] }
ctrlc = "=3.5.2"
reqwest = { version = "0.11", default-features = false }
tokio = { version = "=1.53.2", features = ["macros", "rt-multi-thread"] }
twitch_api2 = { version = "=0.6.1", features = ["tmi", "reqwest"] }
