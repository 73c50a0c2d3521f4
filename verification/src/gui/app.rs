//! The application behind its windows: which screen is shown, what stands in its fields, and what
//! every button and every answer from the outside does to them.

use crate::gui::explorer::{
    rename_file, rename_outcome, rename_status, rename_text, renamed, RenameOutcome,
};
use crate::gui::login::{check_form, created_status, form_fault, vault_file};
use crate::gui::Screen;
use crate::paths::{file_name, optional_text, path_file_name, pushed};
use crate::text::{around, concat, copy_text};
use crate::vfs::VaultMetadata;
use vstd::prelude::*;

verus! {

/// Which way of meeting a friend the network screen shows.
#[derive(Debug, Clone, Copy, PartialEq, Eq, Structural)]
pub enum TransportTab {
    /// Synchronisation through onion services.
    Tor,
    /// A transfer while both are there.
    Live,
}

/// The application, but for the vault that is open.
pub struct AtomVaultApp<T> {
    pub screen: Screen,
    pub home_status: T,
    pub login_status: T,
    pub explorer_status: T,
    pub create_status: T,
    pub add_friend_status: T,
    /// The vault that is to be unlocked.
    pub selected_vault_path: Option<T>,
    pub password: T,
    /// The process is confined to one vault; that is done once.
    pub sandbox_applied: bool,
    /// A vault is open, and where it lies.
    pub unlocked: bool,
    pub current_vault_path: T,
    pub create_name: T,
    pub create_password: T,
    pub create_confirm: T,
    pub create_show_password: bool,
    /// The name that the file being read gets in the vault.
    pub pending_import: T,
    /// The file that waits for a place to go to.
    pub pending_export: Option<T>,
    /// The file that a viewer shows.
    pub viewer: Option<T>,
    /// The file that is being renamed, and the name that is typed.
    pub rename: Option<(T, T)>,
    pub friend_nick: T,
    pub friend_url: T,
    pub transport_tab: TransportTab,
}

/// The text of an optional pair of texts.
pub open spec fn optional_pair(p: Option<(String, String)>) -> Option<(Seq<char>, Seq<char>)> {
    match p {
        Some((a, b)) => Some((a@, b@)),
        None => None,
    }
}

/// The fields of the application as plain values.
pub type AppView = AtomVaultApp<Seq<char>>;

impl View for AtomVaultApp<String> {
    type V = AtomVaultApp<Seq<char>>;

    open spec fn view(&self) -> Self::V {
        AtomVaultApp {
            screen: self.screen,
            home_status: self.home_status@,
            login_status: self.login_status@,
            explorer_status: self.explorer_status@,
            create_status: self.create_status@,
            add_friend_status: self.add_friend_status@,
            selected_vault_path: optional_text(self.selected_vault_path),
            password: self.password@,
            sandbox_applied: self.sandbox_applied,
            unlocked: self.unlocked,
            current_vault_path: self.current_vault_path@,
            create_name: self.create_name@,
            create_password: self.create_password@,
            create_confirm: self.create_confirm@,
            create_show_password: self.create_show_password,
            pending_import: self.pending_import@,
            pending_export: optional_text(self.pending_export),
            viewer: optional_text(self.viewer),
            rename: optional_pair(self.rename),
            friend_nick: self.friend_nick@,
            friend_url: self.friend_url@,
            transport_tab: self.transport_tab,
        }
    }
}

/// The screens that show what is in a vault are shown only while one is open.
pub open spec fn shows_only_open_vaults(a: AppView) -> bool {
    a.screen == Screen::VaultExplorer || a.screen == Screen::P2PDialog ==> a.unlocked
}

/// What is said of a vault that was chosen.
pub open spec fn chosen_text() -> Seq<char> {
    "Vault selected. Enter master password."@
}

/// A vault that is to be unlocked.
pub struct UnlockRequest {
    pub path: String,
    pub password: String,
    /// The process is to be confined to the vault first.
    pub confine: bool,
}

/// How an unlocking went.
pub enum UnlockResult {
    Opened,
    /// The password is wrong, or the file is damaged.
    Refused,
    /// The file does not open, and why.
    NoFile(String),
}

/// A vault that is to be made.
pub struct CreateRequest {
    pub password: String,
    /// The process is to be confined to the vault first.
    pub confine: bool,
}

impl AtomVaultApp<String> {
    /// The application at its start: the home screen, with empty fields.
    pub fn new() -> (r: Self)
        ensures
            r@.screen == Screen::Home,
            !r@.unlocked,
            !r@.sandbox_applied,
            r@.selected_vault_path is None,
            r@.password.len() == 0 && r@.create_password.len() == 0 && r@.create_confirm.len() == 0,
            r@.home_status.len() == 0 && r@.login_status.len() == 0 && r@.explorer_status.len() == 0,
            r@.create_status.len() == 0 && r@.add_friend_status.len() == 0,
            r@.current_vault_path.len() == 0 && r@.create_name.len() == 0,
            r@.pending_import.len() == 0 && r@.friend_nick.len() == 0 && r@.friend_url.len() == 0,
            r@.pending_export is None && r@.viewer is None && r@.rename is None,
            !r@.create_show_password,
            r@.transport_tab == TransportTab::Tor,
            shows_only_open_vaults(r@),
    {
        AtomVaultApp {
            screen: Screen::Home,
            home_status: String::new(),
            login_status: String::new(),
            explorer_status: String::new(),
            create_status: String::new(),
            add_friend_status: String::new(),
            selected_vault_path: None,
            password: String::new(),
            sandbox_applied: false,
            unlocked: false,
            current_vault_path: String::new(),
            create_name: String::new(),
            create_password: String::new(),
            create_confirm: String::new(),
            create_show_password: false,
            pending_import: String::new(),
            pending_export: None,
            viewer: None,
            rename: None,
            friend_nick: String::new(),
            friend_url: String::new(),
            transport_tab: TransportTab::Tor,
        }
    }

    // ── Home ─────────────────────────────────────────────────────────────────

    /// Goes to the form for a new vault.
    pub fn create_new(&mut self)
        ensures
            final(self)@ == (AtomVaultApp {
                home_status: Seq::empty(),
                screen: Screen::CreateVault,
                ..old(self)@
            }),
            shows_only_open_vaults(final(self)@),
    {
        self.home_status = String::new();
        self.screen = Screen::CreateVault;
        assert(self@.home_status =~= Seq::empty());
    }

    /// Goes to the password of a listed vault.
    pub fn open_listed(&mut self, path: &str)
        ensures
            final(self)@ == (AtomVaultApp {
                selected_vault_path: Some(path@),
                login_status: chosen_text(),
                home_status: Seq::empty(),
                screen: Screen::Login,
                ..old(self)@
            }),
            shows_only_open_vaults(final(self)@),
    {
        self.selected_vault_path = Some(copy_text(path));
        self.login_status = copy_text("Vault selected. Enter master password.");
        self.home_status = String::new();
        self.screen = Screen::Login;
        assert(self@.home_status =~= Seq::empty());
    }

    /// Takes a vault that was found by browsing. From the home screen that leads to its password;
    /// on any other the screen stays.
    pub fn vault_picked(&mut self, path: &str)
        ensures
            final(self)@ == (AtomVaultApp {
                selected_vault_path: Some(path@),
                login_status: chosen_text(),
                screen: if old(self)@.screen == Screen::Home {
                    Screen::Login
                } else {
                    old(self)@.screen
                },
                ..old(self)@
            }),
            shows_only_open_vaults(old(self)@) ==> shows_only_open_vaults(final(self)@),
    {
        self.selected_vault_path = Some(copy_text(path));
        self.login_status = copy_text("Vault selected. Enter master password.");
        if self.screen == Screen::Home {
            self.screen = Screen::Login;
        }
    }

    // ── Login ────────────────────────────────────────────────────────────────

    /// Goes back to the home screen. The password that was typed is dropped.
    pub fn back_home(&mut self)
        ensures
            final(self)@ == (AtomVaultApp {
                password: Seq::empty(),
                login_status: Seq::empty(),
                screen: Screen::Home,
                ..old(self)@
            }),
            shows_only_open_vaults(final(self)@),
    {
        self.password = String::new();
        self.login_status = String::new();
        self.screen = Screen::Home;
        assert(self@.password =~= Seq::empty());
        assert(self@.login_status =~= Seq::empty());
    }

    /// Begins an unlocking: without a vault or without a password only the status changes.
    /// Otherwise the password leaves its field, and the process is confined unless it is already.
    pub fn begin_unlock(&mut self) -> (r: Option<UnlockRequest>)
        ensures
            match old(self)@.selected_vault_path {
                None => r is None && final(self)@ == (AtomVaultApp {
                    login_status: "Error: Please select a vault first!"@,
                    ..old(self)@
                }),
                Some(p) => if old(self)@.password.len() == 0 {
                    r is None && final(self)@ == (AtomVaultApp {
                        login_status: "Error: Password cannot be empty!"@,
                        ..old(self)@
                    })
                } else {
                    &&& r matches Some(u)
                    &&& u.path@ == p
                    &&& u.password@ == old(self)@.password
                    &&& u.confine == !old(self)@.sandbox_applied
                    &&& final(self)@ == (AtomVaultApp {
                        password: Seq::empty(),
                        sandbox_applied: true,
                        login_status: "Decrypting..."@,
                        ..old(self)@
                    })
                },
            },
            shows_only_open_vaults(old(self)@) ==> shows_only_open_vaults(final(self)@),
    {
        let path: String = match &self.selected_vault_path {
            Some(p) => copy_text(p),
            None => {
                self.login_status = copy_text("Error: Please select a vault first!");
                return None;
            },
        };
        if self.password.as_str().is_empty() {
            self.login_status = copy_text("Error: Password cannot be empty!");
            return None;
        }
        let confine: bool = !self.sandbox_applied;
        self.sandbox_applied = true;
        let mut password: String = String::new();
        std::mem::swap(&mut password, &mut self.password);
        self.login_status = copy_text("Decrypting...");
        assert(self@.password =~= Seq::empty());
        Some(UnlockRequest { path, password, confine })
    }

    /// Takes the result of an unlocking. An open vault is shown; a failure stays on the screen.
    pub fn finish_unlock(&mut self, path: &str, result: &UnlockResult)
        ensures
            final(self)@ == match *result {
                UnlockResult::Opened => (AtomVaultApp {
                    current_vault_path: path@,
                    unlocked: true,
                    screen: Screen::VaultExplorer,
                    login_status: Seq::empty(),
                    home_status: Seq::empty(),
                    ..old(self)@
                }),
                UnlockResult::Refused => (AtomVaultApp {
                    login_status: "Error: Invalid password or corrupted vault."@,
                    ..old(self)@
                }),
                UnlockResult::NoFile(e) => (AtomVaultApp {
                    login_status: "Error: Could not open file: "@ + e@,
                    ..old(self)@
                }),
            },
            shows_only_open_vaults(old(self)@) ==> shows_only_open_vaults(final(self)@),
    {
        match result {
            UnlockResult::Opened => {
                self.current_vault_path = copy_text(path);
                self.unlocked = true;
                self.screen = Screen::VaultExplorer;
                self.login_status = String::new();
                self.home_status = String::new();
                assert(self@.login_status =~= Seq::empty());
                assert(self@.home_status =~= Seq::empty());
            },
            UnlockResult::Refused => {
                self.login_status = copy_text("Error: Invalid password or corrupted vault.");
            },
            UnlockResult::NoFile(e) => {
                self.login_status = concat("Error: Could not open file: ", e);
            },
        }
    }

    // ── A new vault ──────────────────────────────────────────────────────────

    /// Leaves the form for a new vault.
    pub fn cancel_create(&mut self)
        ensures
            final(self)@ == (AtomVaultApp { screen: Screen::Home, ..old(self)@ }),
            shows_only_open_vaults(final(self)@),
    {
        self.screen = Screen::Home;
    }

    /// Puts a generated passphrase into both password fields, to be seen.
    pub fn passphrase_generated(&mut self, passphrase: &str)
        ensures
            final(self)@ == (AtomVaultApp {
                create_password: passphrase@,
                create_confirm: passphrase@,
                create_show_password: true,
                create_status: "Passphrase generated! Toggle Show to view and copy."@,
                ..old(self)@
            }),
            shows_only_open_vaults(old(self)@) ==> shows_only_open_vaults(final(self)@),
    {
        self.create_password = copy_text(passphrase);
        self.create_confirm = copy_text(passphrase);
        self.create_show_password = true;
        self.create_status = copy_text("Passphrase generated! Toggle Show to view and copy.");
    }

    /// Checks the form for a new vault: what is wrong with it is said, and otherwise the place of
    /// the vault is known, in the application's directory under the home directory.
    pub fn check_create(&mut self, home: &Option<String>) -> (r: Option<String>)
        ensures
            match form_fault(
                old(self)@.create_name,
                old(self)@.create_password,
                old(self)@.create_confirm,
            ) {
                Some(fault) => r is None && final(self)@ == (AtomVaultApp {
                    create_status: fault,
                    ..old(self)@
                }),
                None => match optional_text(*home) {
                    None => r is None && final(self)@ == (AtomVaultApp {
                        create_status: "Error: Cannot determine home directory."@,
                        ..old(self)@
                    }),
                    Some(h) => optional_text(r) == Some(
                        pushed(h, ".atom_vault/"@ + old(self)@.create_name + ".aegis"@),
                    ) && final(self)@ == old(self)@,
                },
            },
            shows_only_open_vaults(old(self)@) ==> shows_only_open_vaults(final(self)@),
    {
        if let Some(fault) = check_form(
            &self.create_name,
            &self.create_password,
            &self.create_confirm,
        ) {
            self.create_status = copy_text(fault);
            return None;
        }
        match home {
            Some(h) => Some(vault_file(h, &self.create_name)),
            None => {
                self.create_status = copy_text("Error: Cannot determine home directory.");
                None
            },
        }
    }

    /// Begins to make a vault: both password fields are emptied, and the process is confined
    /// unless it is already.
    pub fn begin_create(&mut self) -> (r: CreateRequest)
        ensures
            r.password@ == old(self)@.create_password,
            r.confine == !old(self)@.sandbox_applied,
            final(self)@ == (AtomVaultApp {
                create_password: Seq::empty(),
                create_confirm: Seq::empty(),
                sandbox_applied: true,
                create_status: "Deriving keys, please wait..."@,
                ..old(self)@
            }),
            shows_only_open_vaults(old(self)@) ==> shows_only_open_vaults(final(self)@),
    {
        let confine: bool = !self.sandbox_applied;
        self.sandbox_applied = true;
        let mut password: String = String::new();
        std::mem::swap(&mut password, &mut self.create_password);
        self.create_confirm = String::new();
        self.create_status = copy_text("Deriving keys, please wait...");
        assert(self@.create_password =~= Seq::empty());
        assert(self@.create_confirm =~= Seq::empty());
        CreateRequest { password, confine }
    }

    /// Takes the result of making a vault: a vault that was made is announced on the home screen.
    pub fn finish_create(&mut self, name: &str, failure: &Option<String>)
        ensures
            final(self)@ == match optional_text(*failure) {
                None => (AtomVaultApp {
                    home_status: "Vault '"@ + name@ + "' created. Select it to unlock."@,
                    create_name: Seq::empty(),
                    create_status: Seq::empty(),
                    screen: Screen::Home,
                    ..old(self)@
                }),
                Some(e) => (AtomVaultApp { create_status: "Error: "@ + e, ..old(self)@ }),
            },
            shows_only_open_vaults(old(self)@) ==> shows_only_open_vaults(final(self)@),
    {
        match failure {
            None => {
                self.home_status = created_status(name);
                self.create_name = String::new();
                self.create_status = String::new();
                self.screen = Screen::Home;
                assert(self@.create_name =~= Seq::empty());
                assert(self@.create_status =~= Seq::empty());
            },
            Some(e) => {
                self.create_status = concat("Error: ", e);
            },
        }
    }

    // ── The explorer ─────────────────────────────────────────────────────────

    /// Locks the vault.
    pub fn lock(&mut self)
        ensures
            final(self)@ == (AtomVaultApp {
                unlocked: false,
                screen: Screen::Login,
                login_status: "Vault locked."@,
                ..old(self)@
            }),
            shows_only_open_vaults(final(self)@),
    {
        self.unlocked = false;
        self.screen = Screen::Login;
        self.login_status = copy_text("Vault locked.");
    }

    /// Goes from the explorer to the network screen.
    pub fn open_network(&mut self)
        requires
            old(self).screen == Screen::VaultExplorer,
        ensures
            final(self)@ == (AtomVaultApp { screen: Screen::P2PDialog, ..old(self)@ }),
            shows_only_open_vaults(old(self)@) ==> shows_only_open_vaults(final(self)@),
    {
        self.screen = Screen::P2PDialog;
    }

    /// Goes from the network screen back to the explorer.
    pub fn back_to_vault(&mut self)
        requires
            old(self).screen == Screen::P2PDialog,
        ensures
            final(self)@ == (AtomVaultApp { screen: Screen::VaultExplorer, ..old(self)@ }),
            shows_only_open_vaults(old(self)@) ==> shows_only_open_vaults(final(self)@),
    {
        self.screen = Screen::VaultExplorer;
    }

    /// Takes a file of the host to import: it is read, and gets its file name in the vault.
    pub fn import_picked(&mut self, path: &str)
        ensures
            final(self)@ == (AtomVaultApp {
                pending_import: match path_file_name(path@) {
                    Some(n) => n,
                    None => Seq::empty(),
                },
                explorer_status: "Reading file..."@,
                ..old(self)@
            }),
            shows_only_open_vaults(old(self)@) ==> shows_only_open_vaults(final(self)@),
    {
        self.pending_import = match file_name(path) {
            Some(n) => n,
            None => String::new(),
        };
        self.explorer_status = copy_text("Reading file...");
        assert(path_file_name(path@) is None ==> self@.pending_import =~= Seq::empty());
    }

    /// Hands out the name of the file that was read.
    pub fn take_import(&mut self) -> (r: String)
        ensures
            r@ == old(self)@.pending_import,
            final(self)@ == (AtomVaultApp { pending_import: Seq::empty(), ..old(self)@ }),
            shows_only_open_vaults(old(self)@) ==> shows_only_open_vaults(final(self)@),
    {
        let mut name: String = String::new();
        std::mem::swap(&mut name, &mut self.pending_import);
        assert(self@.pending_import =~= Seq::empty());
        name
    }

    /// Sets the status of the explorer.
    pub fn report(&mut self, status: String)
        ensures
            final(self)@ == (AtomVaultApp { explorer_status: status@, ..old(self)@ }),
            shows_only_open_vaults(old(self)@) ==> shows_only_open_vaults(final(self)@),
    {
        self.explorer_status = status;
    }

    /// Takes a file that could not be read.
    pub fn import_unread(&mut self, reason: &str)
        ensures
            final(self)@ == (AtomVaultApp {
                explorer_status: "Import Error: "@ + reason@,
                ..old(self)@
            }),
            shows_only_open_vaults(old(self)@) ==> shows_only_open_vaults(final(self)@),
    {
        self.explorer_status = concat("Import Error: ", reason);
    }

    /// Begins an export: a place for the file is asked for.
    pub fn begin_export(&mut self, vfs_name: &str)
        ensures
            final(self)@ == (AtomVaultApp {
                pending_export: Some(vfs_name@),
                explorer_status: "Choose where to save the decrypted file..."@,
                ..old(self)@
            }),
            shows_only_open_vaults(old(self)@) ==> shows_only_open_vaults(final(self)@),
    {
        self.pending_export = Some(copy_text(vfs_name));
        self.explorer_status = copy_text("Choose where to save the decrypted file...");
    }

    /// Hands out the file that waits for a place.
    pub fn take_export(&mut self) -> (r: Option<String>)
        ensures
            optional_text(r) == old(self)@.pending_export,
            final(self)@ == (AtomVaultApp { pending_export: None, ..old(self)@ }),
            shows_only_open_vaults(old(self)@) ==> shows_only_open_vaults(final(self)@),
    {
        let mut name: Option<String> = None;
        std::mem::swap(&mut name, &mut self.pending_export);
        name
    }

    /// Takes the end of an export.
    pub fn exported(&mut self, failure: &Option<String>)
        ensures
            final(self)@ == (AtomVaultApp {
                explorer_status: match optional_text(*failure) {
                    None => "Success: File exported."@,
                    Some(e) => "Export Error: "@ + e,
                },
                ..old(self)@
            }),
            shows_only_open_vaults(old(self)@) ==> shows_only_open_vaults(final(self)@),
    {
        self.explorer_status = match failure {
            None => copy_text("Success: File exported."),
            Some(e) => concat("Export Error: ", e),
        };
    }

    /// Begins to show a file: it is being decrypted.
    pub fn begin_view(&mut self, vfs_name: &str)
        ensures
            final(self)@ == (AtomVaultApp {
                explorer_status: "Opening "@ + vfs_name@ + " securely..."@,
                ..old(self)@
            }),
            shows_only_open_vaults(old(self)@) ==> shows_only_open_vaults(final(self)@),
    {
        self.explorer_status = around("Opening ", vfs_name, " securely...");
    }

    /// Takes a file that was decrypted and goes to a viewer.
    pub fn viewer_started(&mut self, vfs_name: &str)
        ensures
            final(self)@ == (AtomVaultApp { viewer: Some(vfs_name@), ..old(self)@ }),
            shows_only_open_vaults(old(self)@) ==> shows_only_open_vaults(final(self)@),
    {
        self.viewer = Some(copy_text(vfs_name));
    }

    /// Takes a viewer that did not start.
    pub fn viewer_failed(&mut self, reason: &str)
        ensures
            final(self)@ == (AtomVaultApp {
                explorer_status: "Open failed: "@ + reason@,
                viewer: None,
                ..old(self)@
            }),
            shows_only_open_vaults(old(self)@) ==> shows_only_open_vaults(final(self)@),
    {
        self.explorer_status = concat("Open failed: ", reason);
        self.viewer = None;
    }

    /// Takes the end of a viewing; where none is going on, nothing changes.
    pub fn viewer_closed(&mut self)
        ensures
            final(self)@ == match old(self)@.viewer {
                Some(name) => (AtomVaultApp {
                    explorer_status: "Closed securely: "@ + name,
                    viewer: None,
                    ..old(self)@
                }),
                None => old(self)@,
            },
            shows_only_open_vaults(old(self)@) ==> shows_only_open_vaults(final(self)@),
    {
        let mut name: Option<String> = None;
        std::mem::swap(&mut name, &mut self.viewer);
        if let Some(n) = name {
            self.explorer_status = concat("Closed securely: ", &n);
        }
    }

    /// Asks for a new name of a file; its name stands in the field.
    pub fn begin_rename(&mut self, vfs_name: &str)
        ensures
            final(self)@ == (AtomVaultApp {
                rename: Some((vfs_name@, vfs_name@)),
                ..old(self)@
            }),
            shows_only_open_vaults(old(self)@) ==> shows_only_open_vaults(final(self)@),
    {
        self.rename = Some((copy_text(vfs_name), copy_text(vfs_name)));
    }

    /// Gives a renaming up.
    pub fn cancel_rename(&mut self)
        ensures
            final(self)@ == (AtomVaultApp { rename: None, ..old(self)@ }),
            shows_only_open_vaults(old(self)@) ==> shows_only_open_vaults(final(self)@),
    {
        self.rename = None;
    }

    /// Renames the file that is being renamed in the open vault's table, and says what happened.
    /// Where the file is gone by now, nothing is said.
    pub fn finish_rename(&mut self, metadata: &mut VaultMetadata)
        ensures
            match old(self)@.rename {
                None => final(self)@ == old(self)@ && *final(metadata) == *old(metadata),
                Some((from, to)) => {
                    let outcome = rename_outcome(old(metadata).file_table@, from, to);
                    &&& final(self)@ == (AtomVaultApp {
                        rename: None,
                        explorer_status: match rename_text(outcome, to) {
                            Some(t) => t,
                            None => old(self)@.explorer_status,
                        },
                        ..old(self)@
                    })
                    &&& renamed(*old(metadata), *final(metadata), from, to)
                },
            },
            shows_only_open_vaults(old(self)@) ==> shows_only_open_vaults(final(self)@),
    {
        let mut taken: Option<(String, String)> = None;
        std::mem::swap(&mut taken, &mut self.rename);
        if let Some((from, to)) = taken {
            let outcome: RenameOutcome = rename_file(metadata, &from, &to);
            if let Some(t) = rename_status(outcome, &to) {
                self.explorer_status = t;
            }
        }
    }

    // ── Friends ──────────────────────────────────────────────────────────────

    /// Takes the result of adding a friend: the fields are emptied where it was added.
    pub fn friend_added(&mut self, result: &Result<String, String>)
        ensures
            final(self)@ == match *result {
                Ok(words) => (AtomVaultApp {
                    add_friend_status: words@,
                    friend_nick: Seq::empty(),
                    friend_url: Seq::empty(),
                    ..old(self)@
                }),
                Err(e) => (AtomVaultApp { add_friend_status: "Error: "@ + e@, ..old(self)@ }),
            },
            shows_only_open_vaults(old(self)@) ==> shows_only_open_vaults(final(self)@),
    {
        match result {
            Ok(words) => {
                self.add_friend_status = copy_text(words);
                self.friend_nick = String::new();
                self.friend_url = String::new();
                assert(self@.friend_nick =~= Seq::empty());
                assert(self@.friend_url =~= Seq::empty());
            },
            Err(e) => {
                self.add_friend_status = concat("Error: ", e);
            },
        }
    }

    /// Shows another way of meeting a friend.
    pub fn choose_transport(&mut self, tab: TransportTab)
        ensures
            final(self)@ == (AtomVaultApp { transport_tab: tab, ..old(self)@ }),
            shows_only_open_vaults(old(self)@) ==> shows_only_open_vaults(final(self)@),
    {
        self.transport_tab = tab;
    }
}

/// The friend that a synchronisation starts with: the one that is selected, unless one is running.
pub fn sync_target(friends: &Vec<String>, selected: usize, running: bool) -> (r: Option<String>)
    ensures
        optional_text(r) == if !running && selected < friends@.len() {
            Some(friends@[selected as int]@)
        } else {
            None
        },
{
    if !running && selected < friends.len() {
        Some(copy_text(&friends[selected]))
    } else {
        None
    }
}

/// Whether the friends are to be read again: a synchronisation has just ended.
pub fn friends_stale(was_done: bool, is_done: bool) -> (r: bool)
    ensures
        r == (!was_done && is_done),
{
    !was_done && is_done
}

// ── Laws ─────────────────────────────────────────────────────────────────────

/// The application is seen with all its texts, each in its own place.
pub proof fn law_app_as_plain_values(a: AtomVaultApp<String>)
    ensures
        a@.screen == a.screen && a@.unlocked == a.unlocked && a@.sandbox_applied
            == a.sandbox_applied && a@.create_show_password == a.create_show_password
            && a@.transport_tab == a.transport_tab,
        a@.home_status == a.home_status@ && a@.login_status == a.login_status@
            && a@.explorer_status == a.explorer_status@ && a@.create_status == a.create_status@
            && a@.add_friend_status == a.add_friend_status@,
        a@.password == a.password@ && a@.create_password == a.create_password@ && a@.create_confirm
            == a.create_confirm@ && a@.create_name == a.create_name@,
        a@.current_vault_path == a.current_vault_path@ && a@.pending_import == a.pending_import@
            && a@.friend_nick == a.friend_nick@ && a@.friend_url == a.friend_url@,
        a.selected_vault_path matches Some(p) ==> a@.selected_vault_path == Some(p@),
        a.selected_vault_path is None ==> a@.selected_vault_path is None,
        a.pending_export matches Some(p) ==> a@.pending_export == Some(p@),
        a.pending_export is None ==> a@.pending_export is None,
        a.viewer matches Some(p) ==> a@.viewer == Some(p@),
        a.viewer is None ==> a@.viewer is None,
        a.rename matches Some((x, y)) ==> a@.rename == Some((x@, y@)),
        a.rename is None ==> a@.rename is None,
{
}

/// While no vault is open, neither the files of a vault nor the dialog that sends one are shown.
pub proof fn law_closed_vaults_are_not_shown(a: AppView)
    requires
        shows_only_open_vaults(a),
        !a.unlocked,
    ensures
        a.screen != Screen::VaultExplorer,
        a.screen != Screen::P2PDialog,
{
}

} // verus!
