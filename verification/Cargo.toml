[package]
name = "embassy_dns"
version = "0.1.0"
edition = "2021"
publish = false

[dependencies]
embedded-nal-async = "=0.9.0"
heapless = "=0.9.3"
smoltcp = { version = "=0.14.0", default-features = false, features = ["std", "async", "medium-ip", "proto-ipv4", "proto-ipv6", "socket-dns", "socket-mdns", "dns-max-result-count-4"] }
