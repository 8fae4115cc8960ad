[package]
name = "netmon"
version = "0.1.0"
edition = "2021"
publish = false

[dependencies]
chrono = "*"
crossterm = "*"
dns-lookup = "*"
pcap = "*"
pnet = "*"
ratatui = "*"
