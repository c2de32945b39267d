[package]
name = "analytics_plot"
version = "0.1.0"
edition = "2021"
publish = false

[dependencies]
chrono = "0.4"
clap = { version = "4", features = ["derive"] }
clap-verbosity-flag = "2"
csv = "1"
fixed = "1"
log = "0.4"
opener = "0.7"
plotters = { version = "0.3", default-features = false, features = ["bitmap_backend", "bitmap_encoder", "svg_backend", "chrono", "line_series", "full_palette"] }
plotters-backend = "0.3"
plotters-bitmap = "0.3"
plotters-svg = "0.3"
pretty_env_logger = "0.5"
rbx_cookie = "*"
reqwest = { version = "0.12", features = ["json"] }
serde = { version = "1", features = ["derive"] }
strum = { version = "0.26", features = ["derive"] }
thiserror = "1"
