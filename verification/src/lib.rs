pub mod clipboard;
pub mod commands;
pub mod errors;
pub mod gateway;
pub mod identity;
pub mod keydir;
pub mod otp;
pub mod store;
pub mod text;
