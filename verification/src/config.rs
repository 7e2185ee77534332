//! The bot's settings.
use vstd::prelude::*;

verus! {

#[derive(Debug, Clone)]
pub struct Config {
    pub bot_token: String,
    /// MongoDB connection string. Required.
    pub mongodb_uri: String,
    /// The MongoDB database name, "loan_wallet" by default.
    pub mongodb_db: String,
    /// The bot's public URL, where Telegram sends updates. Required.
    pub webhook_url: String,
    /// The secret checked against X-Telegram-Bot-Api-Secret-Token. Optional.
    pub webhook_secret: Option<String>,
    /// The address the HTTP server binds, "0.0.0.0:8080" by default.
    pub bind_addr: String,
}

} // verus!
