[package]
name = "spectrum_bars"
version = "0.1.0"
edition = "2021"
publish = false

[dependencies]
audio-recorder-rs = "*"
cpal = "0.15"
macroquad = "0.4"
rustfft = "6"
savgol-rs = "*"
serde = { version = "1", features = ["derive"] }
spectrum-analyzer = "1"
toml = "0.8"
windowfunctions = "*"
