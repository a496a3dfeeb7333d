pub mod message;
pub mod phrase;
pub mod codec;
pub mod crypto;
pub mod relay;
pub mod text;
pub mod tofu;
pub mod discovery;
pub mod server;

pub use crate::crypto::{
    checked_decrypt_client_message, decrypt_client_message, encrypt_client_message,
    get_destination, Key, Pubkey,
};
pub use crate::message::{Message, WebSocketMessage};
pub use crate::phrase::{format_phrase, parse_phrase};
pub use crate::tofu::{Tofu, TofuEntry, TofuTable, UntrustedEntry};
