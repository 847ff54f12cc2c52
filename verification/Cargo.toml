[package]
name = "crabbymetrics"
version = "0.1.0"
edition = "2021"
publish = false

[dependencies]
argmin = { version = "0.11", default-features = false }
argmin-math = { version = "0.5", default-features = false, features = ["ndarray_latest-nolinalg", "vec"] }
linfa = "0.8"
linfa-elasticnet = "0.8"
linfa-ftrl = "0.8"
linfa-linear = "0.8"
linfa-logistic = "0.8"
nalgebra = "0.33"
ndarray = "0.16"
numpy = "0.27"
pyo3 = { version = "0.27", features = ["abi3-py39"] }
rand = "0.8"
within = "*"
