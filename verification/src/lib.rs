//! Atom Vault: an encrypted, application-level virtual file system.

pub mod base32;
pub mod bytes;
pub mod chunker;
pub mod cli;
pub mod cmd;
pub mod commands;
pub mod config_crypto;
pub mod contents;
pub mod crypto;
pub mod gui;
pub mod human;
pub mod p2p_direct;
pub mod paths;
pub mod primitives;
pub mod sandbox;
pub mod secure_input;
pub mod storage;
pub mod text;
pub mod vault;
pub mod vfs;
