[package]
name = "flashkit"
version = "0.1.0"
edition = "2021"
publish = false

[dependencies]
hex = "=0.4.3"
libc = "=0.2.191"
plist = "=1.10.3"
rustix = { version = "=1.1.6", features = ["fs", "mount", "net", "param"] }
sha2 = "=0.11.1"
thiserror = "=2.0.21"
tokio = { version = "=1.54.1", features = ["fs", "io-util", "macros", "process", "rt", "sync", "time"] }
tokio-stream = "=0.1.19"
tracing = "=0.1.44"
windows = { version = "=0.61.3", features = [
    "Win32_Devices_DeviceAndDriverInstallation",
    "Win32_Foundation",
    "Win32_Security",
    "Win32_Storage_FileSystem",
    "Win32_System_IO",
    "Win32_System_Ioctl",
    "Win32_System_WindowsProgramming",
] }
zbus = { version = "=5.19.0", default-features = false, features = ["tokio"] }
zvariant = "=5.15.1"
