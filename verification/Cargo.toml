[package]
name = "dwarfline"
version = "0.1.0"
edition = "2021"
publish = false

[dependencies]
gimli = "*"
object = "*"
memmap = "*"
x86asm = "*"
