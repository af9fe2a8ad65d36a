[package]
name = "primg"
version = "0.1.0"
edition = "2021"
publish = false

[dependencies]
rand = "0.4"
image = "0.19"
clap = "2"
threadpool = "1"
num_cpus = "1"
jni = "0.10"
