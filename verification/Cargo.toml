[package]
name = "nuonuo"
version = "0.1.0"
edition = "2021"
publish = false

[dependencies]
anyhow = "=1.0.104"
drm = "=0.14.1"
smithay = { version = "=0.7.0", default-features = false, features = ["backend_drm", "backend_gbm", "backend_egl", "backend_libinput", "backend_session", "renderer_gl", "renderer_multi", "wayland_frontend", "desktop"] }
smithay-drm-extras = { version = "=0.1.0", default-features = false }
tracing = "=0.1.44"
tracy-client = "=0.19.0"
