[package]
name = "tui_book_search"
version = "0.1.0"
edition = "2021"
publish = false

[dependencies]
anyhow = "1"
async-trait = "0.1"
crossterm = "*"
futures-util = "0.3"
ratatui = "*"
reqwest = { version = "0.12", default-features = false, features = ["json", "stream", "rustls-tls"] }
scraper = "*"
serde = { version = "1", features = ["derive"] }
serde_json = "1"
thirtyfour = "*"
throbber-widgets-tui = "*"
tokio = { version = "1", features = ["full"] }
tui-input = "*"
unicode-width = "*"
