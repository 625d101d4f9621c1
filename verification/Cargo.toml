[package]
name = "libtinyos"
version = "0.1.0"
edition = "2021"
publish = false

[dependencies]
linked_list_allocator = "=0.10.6"
conquer-once = "=0.4.0"
x86_64 = { version = "=0.14.13", default-features = false, features = ["instructions"] }
embedded-graphics = "=0.8.2"
