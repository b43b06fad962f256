[package]
name = "intermix"
version = "0.1.0"
edition = "2021"
publish = false

[dependencies]
ego-tree = "*"
term = "*"
itertools = "*"
uuid = { version = "*", features = ["v4"] }
libc = "*"
termios = "*"
pty = "*"
docopt = "*"
rustc-serialize = "*"
log = "*"
vterm-sys = "*"
ioctl-rs = "*"
