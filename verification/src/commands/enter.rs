//! Unlocking a vault for the shell.

use crate::cli::is_blank;
use crate::crypto::UnlockedVault;
use crate::paths::optional_text;
use crate::storage::{load_result, load_vault_metadata, OpenError, VaultError};
use crate::text::{concat, copy_text, trim_spec};
use crate::vfs::VaultMetadata;
use vstd::prelude::*;

verus! {

/// Opens a vault file. A password that is empty but for white space is refused before it is tried.
pub fn handle_enter(image: &[u8], password: &str) -> (r: Result<
    (VaultMetadata, UnlockedVault, u64),
    OpenError,
>)
    ensures
        r matches Err(e) ==> e.wf(),
        trim_spec(password@).len() == 0 ==> (r matches Err(e) && e.fault
            == VaultError::EmptyPassword),
        trim_spec(password@).len() > 0 ==> match load_result(image@, password@) {
            Ok(l) => {
                &&& r matches Ok(v)
                &&& v.0@ == l.0
                &&& v.1.dek@ == l.1
                &&& v.2 == l.2
                &&& v.2 < image@.len()
            },
            Err(f) => r matches Err(e) && e.fault == f,
        },
{
    if is_blank(password) {
        return Err(OpenError::new(VaultError::EmptyPassword));
    }
    load_vault_metadata(image, password)
}

/// The staging directory that the shell may write to.
pub open spec fn shell_staging(runtime_dir: Option<Seq<char>>, home: Option<Seq<char>>) -> Seq<
    char,
> {
    match (runtime_dir, home) {
        (Some(r), _) => r + "/atom_staging"@,
        (None, Some(h)) => h + "/.atom_vault/staging"@,
        (None, None) => "/tmp/atom_staging"@,
    }
}

/// What the shell is confined to: it reads programs and settings of the system, and writes the
/// vault and the staging directory.
pub struct ShellScope {
    pub read_only: Vec<String>,
    pub read_write: Vec<String>,
}

/// What the shell is confined to.
pub fn shell_scope(vault_path: &str, runtime_dir: &Option<String>, home: &Option<String>) -> (r:
    ShellScope)
    ensures
        r.read_only@.len() == 2,
        r.read_only@[0]@ == "/usr"@,
        r.read_only@[1]@ == "/etc"@,
        r.read_write@.len() == 2,
        r.read_write@[0]@ == vault_path@,
        r.read_write@[1]@ == shell_staging(optional_text(*runtime_dir), optional_text(*home)),
{
    let staging: String = match (runtime_dir, home) {
        (Some(d), _) => concat(d, "/atom_staging"),
        (None, Some(h)) => concat(h, "/.atom_vault/staging"),
        (None, None) => copy_text("/tmp/atom_staging"),
    };
    let mut read_only: Vec<String> = Vec::new();
    read_only.push(copy_text("/usr"));
    read_only.push(copy_text("/etc"));
    let mut read_write: Vec<String> = Vec::new();
    read_write.push(copy_text(vault_path));
    read_write.push(staging);
    ShellScope { read_only, read_write }
}

// ── Laws ─────────────────────────────────────────────────────────────────────

/// The shell stages files in the runtime directory of the session, or else in the home directory,
/// or else among temporary files.
pub proof fn law_shell_always_has_a_staging_area(home: Option<Seq<char>>, dir: Seq<char>)
    ensures
        shell_staging(Some(dir), home) == dir + "/atom_staging"@,
        shell_staging(None, Some(dir)) == dir + "/.atom_vault/staging"@,
        shell_staging(None, None) == "/tmp/atom_staging"@,
{
}

} // verus!
