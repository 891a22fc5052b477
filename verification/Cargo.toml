[package]
name = "kharon"
version = "0.1.0"
edition = "2021"
publish = false

[dependencies]
serde_json = "1"
uuid = { version = "1", features = ["v4"] }
serde = { version = "1", features = ["derive"] }
tokio = { version = "1", features = ["rt-multi-thread", "macros", "time"] }
reqwest = { version = "0.12", default-features = false, features = ["json", "rustls-tls"] }
actix-web = { version = "4", default-features = false, features = ["macros"] }
actix-cors = "0.7"
dotenv = "0.15"
futures-util = "0.3"
lettre = "0.11"
mongodb = "3"
