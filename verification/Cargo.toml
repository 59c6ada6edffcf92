[package]
name = "ctf_arena"
version = "0.1.0"
edition = "2021"
publish = false

[dependencies]
sha2 = "=0.10.9"
tar = "=0.4.46"
flate2 = "=1.1.10"
uuid = { version = "=1.29.0", features = ["v4"] }
tokio = { version = "=1.54.1", features = ["full"] }
futures-util = "=0.3.34"
bollard = "=0.16.1"
teloxide = { version = "=0.12.2", default-features = false, features = ["macros", "rustls", "ctrlc_handler"] }
takecell = "=0.1.1"
actix-web = "=4.18.1"
get_if_addrs = "=0.5.3"
pcap = "=1.3.0"
lazy_static = "=1.5.1"
log = "=0.4.35"
pretty_env_logger = "=0.5.0"
