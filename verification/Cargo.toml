[package]
name = "stemify"
version = "0.1.0"
edition = "2021"
publish = false

[dependencies]
base64 = "=0.22.1"
serde = { version = "1", features = ["derive"] }
ctrlc = "3"
rubberband = "*"
ort = { version = "2.0.0-rc.10", default-features = false, features = ["std", "load-dynamic", "cuda"] }
windows = { version = "0.58", features = ["Foundation", "Media_Control", "Storage_Streams", "Win32_Foundation", "Win32_Media_Audio", "Win32_System_Com", "Win32_System_Com_StructuredStorage", "Win32_System_Variant", "Win32_Devices_FunctionDiscovery", "Win32_UI_Shell_PropertiesSystem", "Win32_System_Diagnostics_ToolHelp", "Win32_System_WinRT", "Win32_System_Threading"] }
