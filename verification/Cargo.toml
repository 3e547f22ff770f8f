[package]
name = "ryowm"
version = "0.1.0"
edition = "2021"
publish = false

[dependencies]
anyhow = "=1.0.104"
calloop = "=0.14.5"
input = { version = "=0.9.1", default-features = false, features = ["libinput_1_21"] }
rtrb = "=0.4.1"
serde = { version = "=1.0.229", features = ["derive"] }
smithay = { version = "=0.7.0", default-features = false, features = ["backend_winit", "backend_libinput", "renderer_gl", "wayland_frontend", "desktop"] }
tracing = "=0.1.44"
tracing-subscriber = { version = "=0.3.23", features = ["env-filter"] }
xcursor = "=0.3.11"
