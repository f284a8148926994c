[package]
name = "netcdf_variable"
version = "0.1.0"
edition = "2021"
publish = false

[dependencies]
ndarray = "=0.16.1"
netcdf-sys = "0.2.2"
libc = "=0.2.191"
