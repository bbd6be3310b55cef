[package]
name = "microkernel"
version = "0.1.0"
edition = "2021"
publish = false

[dependencies]
x86_64 = { version = "0.14", default-features = false, features = ["instructions"] }
bootloader = "0.9"
spin = "0.9"
lazy_static = "1"
linked_list_allocator = "0.10"
pc-keyboard = "0.5"
pic8259 = { version = "0.10", default-features = false }
volatile = "0.2"
