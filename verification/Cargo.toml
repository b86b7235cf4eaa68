[package]
name = "sudoku_solver"
version = "0.1.0"
edition = "2021"
publish = false

[dependencies]
signal-hook = "0.3"
tokio = { version = "1", features = ["macros", "rt-multi-thread", "time"] }
