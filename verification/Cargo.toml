[package]
name = "comet_parquet"
version = "0.1.0"
edition = "2021"
publish = false

[dependencies]
arrow = { version = "=59.3.2", default-features = false }
bytes = "=1.12.1"
datafusion-common = { version = "=55.2.0", default-features = false }
datafusion-common-runtime = { version = "=55.2.0", default-features = false }
datafusion-datasource = { version = "=55.2.0", default-features = false }
datafusion-datasource-parquet = { version = "=55.2.0", default-features = false }
datafusion-execution = { version = "=55.2.0", default-features = false }
datafusion-expr = { version = "=55.2.0", default-features = false }
datafusion-physical-expr = { version = "=55.2.0", default-features = false }
datafusion-physical-expr-adapter = { version = "=55.2.0", default-features = false }
datafusion-physical-expr-common = { version = "=55.2.0", default-features = false }
datafusion-physical-plan = { version = "=55.2.0", default-features = false }
datafusion-pruning = { version = "=55.2.0", default-features = false }
futures = "=0.3.34"
log = "=0.4.35"
parquet = { version = "=59.3.2", default-features = false, features = ["arrow", "async"] }
tokio = { version = "=1.54.1", features = ["sync", "rt", "time"] }
