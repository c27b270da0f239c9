[package]
name = "mf1"
version = "0.1.0"
edition = "2021"
publish = false

[dependencies]
icu_plurals = "=2.4.0"
icu_locale_core = "=2.4.0"
unicode-id-start = "=1.5.0"
unicode-general-category = "=1.1.0"
serde = { version = "=1.0.229", features = ["derive"] }
serde_json = "=1.0.154"
toml = "=1.1.8"
proc-macro2 = "=1.0.107"
quote = "=1.0.47"
syn = { version = "=2.0.119", features = ["full"] }
convert_case = "=0.12.0"
thiserror = "=2.0.21"
logos = "=0.16.1"
