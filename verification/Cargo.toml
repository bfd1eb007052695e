[package]
name = "fmi"
version = "0.1.0"
edition = "2021"
publish = false

[dependencies]
sysinfo = "*"
winapi = { version = "0.3", features = ["handleapi", "memoryapi", "minwindef", "ntdef", "processthreadsapi", "psapi", "securitybaseapi", "winbase", "winnt"] }
