[package]
name = "price_tick_conversions"
version = "0.1.0"
edition = "2021"
publish = false

[dependencies]
alloy-primitives = "=1.7.3"
num-bigint = "=0.5.1"
num-integer = "=0.1.47"
num-traits = "=0.2.19"
uniswap_v3_math = "=0.6.2"
