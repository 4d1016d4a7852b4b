[package]
name = "deepcool_digital"
version = "0.1.0"
edition = "2021"
publish = false

[dependencies]
libloading = "*"
windows = { version = "*", features = ["Win32_Foundation", "Win32_Security", "Win32_Storage_FileSystem", "Win32_System_IO", "Win32_System_Services", "Win32_Graphics_Dxgi", "Win32_Graphics_Dxgi_Common"] }
