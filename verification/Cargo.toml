[package]
name = "xplatform_memory"
version = "0.1.0"
edition = "2021"
publish = false

[dependencies]
libc = "0.2"
nix = { version = "*", features = ["ptrace", "process"] }
winapi = { version = "0.3", features = ["minwindef", "windef", "handleapi", "memoryapi", "processthreadsapi", "psapi", "winnt", "winuser"] }
