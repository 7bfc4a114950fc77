[package]
name = "codegen"
version = "0.1.0"
edition = "2021"
publish = false

[dependencies]
inkwell = { version = "=0.10.0", default-features = false, features = ["llvm14-0"] }
llvm-sys = { version = "=140.1.3", features = ["force-dynamic"] }
