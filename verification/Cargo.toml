[package]
name = "ouroboros_macro"
version = "0.1.0"
edition = "2021"
publish = false

[dependencies]
Inflector = { version = "0.11", default-features = false }
proc-macro2 = "1.0"
quote = "1.0"
syn = { version = "1.0", features = ["full"] }
proc-macro-error = "1.0"
proc-macro2-diagnostics = "0.9"
stable_deref_trait = "1.2"
