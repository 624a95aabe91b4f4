[package]
name = "disasm_core"
version = "0.1.0"
edition = "2021"
publish = false

[dependencies]
goblin = "=0.10.7"
capstone = "=0.14.0"
env_logger = "=0.11.11"
arrow-array = "=60.1.0"
arrow-buffer = "=60.1.0"
arrow-schema = "=60.1.0"

[dev-dependencies]
object = { version = "=0.40.0", features = ["write"] }
