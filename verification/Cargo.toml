[package]
name = "luks-enroll"
version = "0.1.0"
edition = "2021"
publish = false

[dependencies]
base64 = "0.22"
futures-util = "0.3"
getrandom = "0.3"
gpt = "*"
libblkid-rs = "*"
libblkid-rs-sys = "*"
libc = "0.2"
libcryptsetup-rs = { version = "*", features = ["mutex"] }
nix = { version = "0.30", features = ["fs", "ioctl", "poll", "user"] }
serde_json = "1"
sha2 = "0.10"
tokio = { version = "1", features = ["full"] }
tss-esapi = "7"
udev = "*"
zbus = { version = "5", default-features = false, features = ["tokio"] }
zbus_polkit = { version = "5", default-features = false, features = ["tokio"] }
zeroize = "1"

[dev-dependencies]
tempfile = "3"
