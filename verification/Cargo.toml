[package]
name = "tc39_decorators"
version = "0.1.0"
edition = "2021"
publish = false

[dependencies]
oxc_allocator = "=0.115.0"
oxc_ast = "=0.115.0"
oxc_semantic = "=0.115.0"
oxc_span = "=0.115.0"
oxc_syntax = "=0.115.0"
oxc_traverse = "=0.115.0"

[dev-dependencies]
oxc_parser = "=0.115.0"
