//! The decisions behind the windows: what a form accepts, what a click leads to, what is said and
//! in which colour.

use vstd::prelude::*;

pub mod app;
pub mod broker;
pub mod explorer;
pub mod home;
pub mod live;
pub mod login;
pub mod p2p;

verus! {

/// A colour: red, green and blue.
pub type Rgb = [u8; 3];

/// The colour of errors.
pub const RED: [u8; 3] = [220, 60, 60];

/// The colour of success.
pub const GREEN: [u8; 3] = [80, 180, 80];

/// The colour of everything else.
pub const GRAY: [u8; 3] = [160, 160, 160];

/// The screens of the application.
#[derive(Debug, Clone, Copy, PartialEq, Eq, Structural)]
pub enum Screen {
    Home,
    Login,
    VaultExplorer,
    CreateVault,
    P2PDialog,
}

} // verus!
