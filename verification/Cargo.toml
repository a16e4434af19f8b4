[package]
name = "spam_detection"
version = "0.1.0"
edition = "2021"
publish = false

[dependencies]
byteorder = "*"
dotenv = "*"
lru_time_cache = "*"
mailparse = "*"
postgres = "*"
rand = "*"
reqwest = { version = "*", default-features = false, features = ["blocking"] }
select = "*"
sentiment = "*"
twox-hash = "*"
walkdir = "*"
