[package]
name = "model_query"
version = "0.1.0"
edition = "2021"
publish = false

[dependencies]
anyhow = "=1.0.104"
# cairo-lang-starknet asks for its sibling crates without an exact version and
# builds only against those of its own release, so each of them is held to it
# here. No source names them.
cairo-lang-casm = "=2.4.4"
cairo-lang-compiler = "=2.4.4"
cairo-lang-defs = "=2.4.4"
cairo-lang-diagnostics = "=2.4.4"
cairo-lang-filesystem = "=2.4.4"
cairo-lang-lowering = "=2.4.4"
cairo-lang-semantic = "=2.4.4"
cairo-lang-sierra = "=2.4.4"
cairo-lang-sierra-generator = "=2.4.4"
cairo-lang-sierra-to-casm = "=2.4.4"
cairo-lang-syntax = "=2.4.4"
cairo-lang-utils = "=2.4.4"
# Called by the code around the library.
cairo-lang-starknet = { version = "=2.4.4", default-features = false }
# Called by the library.
serde_json = "=1.0.154"
starknet = { version = "=0.4.0", default-features = false }
