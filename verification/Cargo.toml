[package]
name = "popcorn"
version = "0.1.0"
edition = "2021"
publish = false

[dependencies]
x86_64 = { version = "=0.15.5", default-features = false, features = ["instructions"] }
pic8259 = { version = "=0.11.0", default-features = false }
bootloader = { version = "=0.9.35", features = ["map_physical_memory"] }
spin = "=0.9.9"
lazy_static = "=1.5.1"
linked_list_allocator = "=0.10.6"
volatile = "=0.2.7"
pc-keyboard = "=0.7.0"
