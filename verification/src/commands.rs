//! The operations that users perform.

pub mod cat;
pub mod create;
pub mod daemon;
pub mod direct;
pub mod enter;
pub mod export;
pub mod friend;
pub mod id;
pub mod import;
pub mod live;
pub mod ls;
pub mod p2p_utils;
pub mod rm;
pub mod shell;
pub mod vacuum;
pub mod vault_registry;
pub mod view;
