[package]
name = "g_terminal"
version = "0.2.2"
edition = "2021"
publish = false

[dependencies]
base64 = "=0.22.1"
directories = "=6.0.0"
image = { version = "=0.25.10", default-features = false, features = ["png"] }
serde = { version = "=1.0.229", features = ["derive"] }
serde_json = "=1.0.154"
anyhow = "=1.0.104"
arboard = { version = "=3.7.0", default-features = false }
rfd = { version = "=0.15.4", default-features = false, features = ["xdg-portal", "tokio"] }
eframe = { version = "=0.33.3", default-features = false, features = ["wgpu", "x11", "default_fonts"] }
egui-winit = { version = "=0.33.3", default-features = false, features = ["accesskit"] }
winit = { version = "=0.30.13", default-features = false, features = ["rwh_06"] }
accesskit_winit = { version = "=0.29.2", default-features = false, features = ["rwh_06"] }
egui-directx11 = "=0.12.1"
windows = { version = "=0.62.2", features = ["Win32_Graphics_Direct3D", "Win32_Graphics_Direct3D11", "Win32_Graphics_Dxgi_Common"] }
