[package]
name = "agent-env"
version = "0.1.0"
edition = "2021"
publish = false

[dependencies]
anyhow = "=1.0.104"
bytes = "=1.12.1"
fctools = { version = "=0.7.0-alpha.2", features = ["tokio-runtime", "vm", "direct-process-spawner", "unrestricted-vmm-executor", "jailed-vmm-executor", "rustix-syscall-backend"] }
futures-util = "=0.3.34"
http-body-util = "=0.1.5"
httparse = "=1.10.1"
hyper = { version = "=1.12.0", features = ["server", "http1", "client"] }
hyper-util = { version = "=0.1.21", features = ["tokio"] }
pem = "=3.0.6"
rcgen = "=0.14.10"
rusqlite = { version = "=0.41.1", features = ["bundled"] }
rustls = { version = "=0.23.46", default-features = false, features = ["ring", "std", "tls12"] }
serde = { version = "=1.0.229", features = ["derive"] }
serde_json = "=1.0.154"
sha2 = "=0.10.9"
tempfile = "=3.27.0"
thiserror = "=2.0.21"
time = { version = "=0.3.55", features = ["formatting", "parsing"] }
tokio = { version = "=1.54.1", features = ["full"] }
tokio-rustls = { version = "=0.26.6", default-features = false, features = ["ring", "tls12"] }
tracing = "=0.1.44"
tracing-subscriber = { version = "=0.3.23", features = ["json", "env-filter"] }
webpki-roots = "=1.0.10"
