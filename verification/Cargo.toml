[package]
name = "meeters_core"
version = "0.1.0"
edition = "2021"
publish = false

[dependencies]
chrono = "0.4"
chrono-tz = "0.10"
ical = "0.11"
rrule = "0.14"
regex = "1"
ureq = { version = "2", default-features = false }
dotenvy = "0.15"
directories = "5"
