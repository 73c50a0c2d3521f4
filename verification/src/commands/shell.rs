//! The interactive shell: what a line asks for, and how an export is confirmed.

use crate::contents::{find_file, has_name};
use crate::text::{
    all_white, around, ascii_lower_text, concat, copy_text, is_white_space,
    law_case_changes_letters_alone, law_one_word, law_trim_keeps_the_rest,
    law_trim_takes_white_space_from_the_ends, law_white_space_parts_words, lower_text, same_text,
    split_whitespace, trim, trim_spec, views, visible, visible_text, words_spec,
};
use crate::vfs::{FileIndex, VaultMetadata};
use vstd::prelude::*;

verus! {

/// What the shell is waiting for.
pub enum ShellState<T> {
    /// A command.
    Prompt,
    /// The answer whether to extract a file.
    ConfirmExport { vfs_name: T, to_disk: T },
    /// The outcome of an extraction.
    Exporting { vfs_name: T, to_disk: T, force: bool },
    /// The answer whether to replace an extracted file.
    ConfirmOverwrite { vfs_name: T, to_disk: T },
    /// Nothing: the session is over.
    Closed,
}

/// What the shell is told.
pub enum ShellEvent<T> {
    /// A line that the user typed.
    Line(T),
    /// The extraction succeeded.
    Exported,
    /// The extraction found a file in its way.
    ExportExists,
    /// The extraction failed.
    ExportFailed(T),
}

/// What the shell does next.
pub enum ShellAction<T> {
    /// Nothing.
    Nothing,
    ListFiles,
    ImportFile { from_disk: T, vfs_name: T },
    RemoveFile { vfs_name: T },
    ExportFile { vfs_name: T, to_disk: T, force: bool },
    ShowFile { vfs_name: T },
    ViewFile { vfs_name: T },
    Compact,
    /// Prints a text.
    Say(T),
    /// Prints a text on the error stream.
    Complain(T),
    /// Prints a question and reads a line.
    Ask(T),
    /// Prints a text and ends the session.
    Leave(T),
}

impl View for ShellState<String> {
    type V = ShellState<Seq<char>>;

    open spec fn view(&self) -> Self::V {
        match self {
            ShellState::Prompt => ShellState::Prompt,
            ShellState::ConfirmExport { vfs_name, to_disk } => ShellState::ConfirmExport {
                vfs_name: vfs_name@,
                to_disk: to_disk@,
            },
            ShellState::Exporting { vfs_name, to_disk, force } => ShellState::Exporting {
                vfs_name: vfs_name@,
                to_disk: to_disk@,
                force: *force,
            },
            ShellState::ConfirmOverwrite { vfs_name, to_disk } => ShellState::ConfirmOverwrite {
                vfs_name: vfs_name@,
                to_disk: to_disk@,
            },
            ShellState::Closed => ShellState::Closed,
        }
    }
}

impl View for ShellEvent<String> {
    type V = ShellEvent<Seq<char>>;

    open spec fn view(&self) -> Self::V {
        match self {
            ShellEvent::Line(s) => ShellEvent::Line(s@),
            ShellEvent::Exported => ShellEvent::Exported,
            ShellEvent::ExportExists => ShellEvent::ExportExists,
            ShellEvent::ExportFailed(s) => ShellEvent::ExportFailed(s@),
        }
    }
}

impl View for ShellAction<String> {
    type V = ShellAction<Seq<char>>;

    open spec fn view(&self) -> Self::V {
        match self {
            ShellAction::Nothing => ShellAction::Nothing,
            ShellAction::ListFiles => ShellAction::ListFiles,
            ShellAction::ImportFile { from_disk, vfs_name } => ShellAction::ImportFile {
                from_disk: from_disk@,
                vfs_name: vfs_name@,
            },
            ShellAction::RemoveFile { vfs_name } => ShellAction::RemoveFile {
                vfs_name: vfs_name@,
            },
            ShellAction::ExportFile { vfs_name, to_disk, force } => ShellAction::ExportFile {
                vfs_name: vfs_name@,
                to_disk: to_disk@,
                force: *force,
            },
            ShellAction::ShowFile { vfs_name } => ShellAction::ShowFile { vfs_name: vfs_name@ },
            ShellAction::ViewFile { vfs_name } => ShellAction::ViewFile { vfs_name: vfs_name@ },
            ShellAction::Compact => ShellAction::Compact,
            ShellAction::Say(s) => ShellAction::Say(s@),
            ShellAction::Complain(s) => ShellAction::Complain(s@),
            ShellAction::Ask(s) => ShellAction::Ask(s@),
            ShellAction::Leave(s) => ShellAction::Leave(s@),
        }
    }
}

// ── Texts ────────────────────────────────────────────────────────────────────

/// What is printed when a session begins.
pub const WELCOME: &'static str =
    "\n==================================================\n      Welcome to Atom Vault Secure Shell!         \n  Your cryptographically isolated workspace is ready. \n==================================================\n\n";

/// What stands before a command.
pub const PROMPT: &'static str = "atom-vault> ";

/// What the help command says.
pub const HELP: &'static str =
    "\nAvailable Commands inside the Secure Shell:\n  ls                                  - List all files inside the vault\n  cat <vfs_name>                      - Read and display a file securely in RAM\n  import <from_disk> <vfs_name>       - Encrypt and import a host file into the vault\n  export <vfs_name> <to_disk>         - Decrypt and export a file back to the host disk\n  rm <vfs_name>                       - Cryptographically shred a file reference from metadata\n  view <vfs_name>                     - Securely isolate and view a file inside the sandbox\n  vacuum                              - Defragment and shrink the physical .aegis container\n  help                                - Show this help menu\n  exit                                - Lock vault, purge cryptographic keys, and exit\n\n";

/// The question before an extraction.
pub open spec fn export_question() -> Seq<char> {
    "\n[WARNING] You are about to extract decrypted data to the physical disk (Staging Area).\nAre you sure you want to proceed? [y/N]: "@
}

/// The question before a replacement.
pub open spec fn overwrite_question() -> Seq<char> {
    "Warning: The file already exists in the staging area. Do you want to overwrite it? [y/N]: "@
}

// ── Commands ─────────────────────────────────────────────────────────────────

/// Whether an answer is a yes: the letter y, in either case, with white space around it.
pub open spec fn is_yes(answer: Seq<char>) -> bool {
    ascii_lower_text(trim_spec(answer)) == "y"@
}

/// Whether an answer is a yes.
pub fn answered_yes(answer: &str) -> (r: bool)
    ensures
        r == is_yes(answer@),
{
    same_text(&lower_text(&trim(answer)), "y")
}

/// The text that explains how a command is used.
pub open spec fn usage(head: Seq<char>, form: Seq<char>) -> ShellAction<Seq<char>> {
    ShellAction::Say(head + "Usage: "@ + form)
}

/// What a command line asks for, and what the shell waits for next.
pub open spec fn command_spec(words: Seq<Seq<char>>, table: Seq<FileIndex>) -> (
    ShellState<Seq<char>>,
    ShellAction<Seq<char>>,
) {
    if words.len() == 0 {
        (ShellState::Prompt, ShellAction::Nothing)
    } else if words[0] == "ls"@ {
        (ShellState::Prompt, ShellAction::ListFiles)
    } else if words[0] == "import"@ {
        if words.len() < 3 {
            (
                ShellState::Prompt,
                usage(
                    "Error: Missing arguments.\n"@,
                    "import <from_disk_path> <target_vfs_name>\n"@,
                ),
            )
        } else {
            (
                ShellState::Prompt,
                ShellAction::ImportFile { from_disk: words[1], vfs_name: words[2] },
            )
        }
    } else if words[0] == "rm"@ {
        if words.len() < 2 {
            (ShellState::Prompt, usage("Error: Missing argument.\n"@, "rm <vfs_name>\n"@))
        } else {
            (ShellState::Prompt, ShellAction::RemoveFile { vfs_name: words[1] })
        }
    } else if words[0] == "export"@ {
        if words.len() < 3 {
            (
                ShellState::Prompt,
                usage("Error: Missing arguments.\n"@, "export <vfs_name> <target_filename>\n"@),
            )
        } else {
            (
                ShellState::ConfirmExport { vfs_name: words[1], to_disk: words[2] },
                ShellAction::Ask(export_question()),
            )
        }
    } else if words[0] == "cat"@ {
        if words.len() < 2 {
            (ShellState::Prompt, usage("Error: Missing argument.\n"@, "cat <vfs_name>\n"@))
        } else {
            (ShellState::Prompt, ShellAction::ShowFile { vfs_name: words[1] })
        }
    } else if words[0] == "view"@ {
        if words.len() < 2 {
            (ShellState::Prompt, usage("Error: Missing argument.\n"@, "view <vfs_name>\n"@))
        } else if has_name(table, words[1]) {
            (ShellState::Prompt, ShellAction::ViewFile { vfs_name: words[1] })
        } else {
            (
                ShellState::Prompt,
                ShellAction::Say(
                    "Error: File '"@ + words[1] + "' not found inside the vault.\n"@,
                ),
            )
        }
    } else if words[0] == "vacuum"@ {
        (ShellState::Prompt, ShellAction::Compact)
    } else if words[0] == "help"@ {
        (ShellState::Prompt, ShellAction::Say(help_text()))
    } else if words[0] == "exit"@ {
        (ShellState::Closed, ShellAction::Leave(goodbye()))
    } else {
        (
            ShellState::Prompt,
            ShellAction::Say(
                "Unknown command: '"@ + visible_text(words[0])
                    + "'. Type 'help' for available commands.\n"@,
            ),
        )
    }
}

/// The text of the help command.
pub open spec fn help_text() -> Seq<char> {
    HELP@
}

/// The text of the exit command.
pub open spec fn goodbye() -> Seq<char> {
    "[Wiping] Purging ephemeral keys from RAM...\nLocking vault and exiting secure shell. Goodbye!\n"@
}

fn use_text(head: &str, form: &str) -> (r: (ShellState<String>, ShellAction<String>))
    ensures
        r.0@ == ShellState::<Seq<char>>::Prompt,
        r.1@ == usage(head@, form@),
{
    (ShellState::Prompt, ShellAction::Say(around(head, "Usage: ", form)))
}

/// What a command line asks for, and what the shell waits for next.
pub fn command(line: &str, metadata: &VaultMetadata) -> (r: (
    ShellState<String>,
    ShellAction<String>,
))
    ensures
        (r.0@, r.1@) == command_spec(words_spec(trim_spec(line@)), metadata.file_table@),
{
    let words: Vec<String> = split_whitespace(&trim(line));
    let ghost w = views(words@);
    assert(w.len() == words@.len());
    if words.len() == 0 {
        return (ShellState::Prompt, ShellAction::Nothing);
    }
    assert(w[0] == words@[0]@);
    let name: &str = &words[0];
    if words.len() > 1 {
        assert(w[1] == words@[1]@);
    }
    if words.len() > 2 {
        assert(w[2] == words@[2]@);
    }
    if same_text(name, "ls") {
        (ShellState::Prompt, ShellAction::ListFiles)
    } else if same_text(name, "import") {
        if words.len() < 3 {
            use_text("Error: Missing arguments.\n", "import <from_disk_path> <target_vfs_name>\n")
        } else {
            (
                ShellState::Prompt,
                ShellAction::ImportFile {
                    from_disk: copy_text(&words[1]),
                    vfs_name: copy_text(&words[2]),
                },
            )
        }
    } else if same_text(name, "rm") {
        if words.len() < 2 {
            use_text("Error: Missing argument.\n", "rm <vfs_name>\n")
        } else {
            (ShellState::Prompt, ShellAction::RemoveFile { vfs_name: copy_text(&words[1]) })
        }
    } else if same_text(name, "export") {
        if words.len() < 3 {
            use_text("Error: Missing arguments.\n", "export <vfs_name> <target_filename>\n")
        } else {
            (
                ShellState::ConfirmExport {
                    vfs_name: copy_text(&words[1]),
                    to_disk: copy_text(&words[2]),
                },
                ShellAction::Ask(
                    copy_text(
                        "\n[WARNING] You are about to extract decrypted data to the physical disk (Staging Area).\nAre you sure you want to proceed? [y/N]: ",
                    ),
                ),
            )
        }
    } else if same_text(name, "cat") {
        if words.len() < 2 {
            use_text("Error: Missing argument.\n", "cat <vfs_name>\n")
        } else {
            (ShellState::Prompt, ShellAction::ShowFile { vfs_name: copy_text(&words[1]) })
        }
    } else if same_text(name, "view") {
        if words.len() < 2 {
            use_text("Error: Missing argument.\n", "view <vfs_name>\n")
        } else {
            match find_file(&metadata.file_table, &words[1]) {
                Some(_) => (
                    ShellState::Prompt,
                    ShellAction::ViewFile { vfs_name: copy_text(&words[1]) },
                ),
                None => (
                    ShellState::Prompt,
                    ShellAction::Say(
                        around("Error: File '", &words[1], "' not found inside the vault.\n"),
                    ),
                ),
            }
        }
    } else if same_text(name, "vacuum") {
        (ShellState::Prompt, ShellAction::Compact)
    } else if same_text(name, "help") {
        (ShellState::Prompt, ShellAction::Say(copy_text(HELP)))
    } else if same_text(name, "exit") {
        (
            ShellState::Closed,
            ShellAction::Leave(
                copy_text(
                    "[Wiping] Purging ephemeral keys from RAM...\nLocking vault and exiting secure shell. Goodbye!\n",
                ),
            ),
        )
    } else {
        (
            ShellState::Prompt,
            ShellAction::Say(
                around(
                    "Unknown command: '",
                    &visible(name),
                    "'. Type 'help' for available commands.\n",
                ),
            ),
        )
    }
}

// ── The session ──────────────────────────────────────────────────────────────

/// What the shell does with an event: a line is a command or an answer, and the outcome of an
/// extraction may lead to the question whether to replace a file. Data reaches the disk only
/// after a yes, and a file is replaced only after another. An event that the shell is not waiting
/// for changes nothing.
pub open spec fn shell_spec(
    state: ShellState<Seq<char>>,
    event: ShellEvent<Seq<char>>,
    table: Seq<FileIndex>,
) -> (ShellState<Seq<char>>, ShellAction<Seq<char>>) {
    match (state, event) {
        (ShellState::Prompt, ShellEvent::Line(line)) => command_spec(
            words_spec(trim_spec(line)),
            table,
        ),
        (ShellState::ConfirmExport { vfs_name, to_disk }, ShellEvent::Line(answer)) => if is_yes(
            answer,
        ) {
            (
                ShellState::Exporting { vfs_name, to_disk, force: false },
                ShellAction::ExportFile { vfs_name, to_disk, force: false },
            )
        } else {
            (
                ShellState::Prompt,
                ShellAction::Say(
                    "Export operation cancelled by user. The vault remains secure.\n"@,
                ),
            )
        },
        (ShellState::Exporting { .. }, ShellEvent::Exported) => (
            ShellState::Prompt,
            ShellAction::Nothing,
        ),
        (ShellState::Exporting { vfs_name, to_disk, force }, ShellEvent::ExportExists) => if force {
            (ShellState::Prompt, ShellAction::Complain("Export failed: ALREADY_EXISTS"@))
        } else {
            (
                ShellState::ConfirmOverwrite { vfs_name, to_disk },
                ShellAction::Ask(overwrite_question()),
            )
        },
        (ShellState::Exporting { .. }, ShellEvent::ExportFailed(e)) => (
            ShellState::Prompt,
            ShellAction::Complain("Export failed: "@ + e),
        ),
        (ShellState::ConfirmOverwrite { vfs_name, to_disk }, ShellEvent::Line(answer)) => if is_yes(
            answer,
        ) {
            (
                ShellState::Exporting { vfs_name, to_disk, force: true },
                ShellAction::ExportFile { vfs_name, to_disk, force: true },
            )
        } else {
            (
                ShellState::Prompt,
                ShellAction::Say("Export cancelled by user. Existing file was preserved.\n"@),
            )
        },
        (state, _) => (state, ShellAction::Nothing),
    }
}

/// One step of the shell.
pub fn shell_step(
    state: ShellState<String>,
    event: ShellEvent<String>,
    metadata: &VaultMetadata,
) -> (r: (ShellState<String>, ShellAction<String>))
    ensures
        (r.0@, r.1@) == shell_spec(state@, event@, metadata.file_table@),
{
    match (state, event) {
        (ShellState::Prompt, ShellEvent::Line(line)) => command(&line, metadata),
        (ShellState::ConfirmExport { vfs_name, to_disk }, ShellEvent::Line(answer)) => {
            if answered_yes(&answer) {
                (
                    ShellState::Exporting {
                        vfs_name: copy_text(&vfs_name),
                        to_disk: copy_text(&to_disk),
                        force: false,
                    },
                    ShellAction::ExportFile { vfs_name, to_disk, force: false },
                )
            } else {
                (
                    ShellState::Prompt,
                    ShellAction::Say(
                        copy_text(
                            "Export operation cancelled by user. The vault remains secure.\n",
                        ),
                    ),
                )
            }
        },
        (ShellState::Exporting { vfs_name, to_disk, force }, ShellEvent::ExportExists) => {
            if force {
                (
                    ShellState::Prompt,
                    ShellAction::Complain(copy_text("Export failed: ALREADY_EXISTS")),
                )
            } else {
                (
                    ShellState::ConfirmOverwrite { vfs_name, to_disk },
                    ShellAction::Ask(
                        copy_text(
                            "Warning: The file already exists in the staging area. Do you want to overwrite it? [y/N]: ",
                        ),
                    ),
                )
            }
        },
        (ShellState::Exporting { .. }, ShellEvent::Exported) => (
            ShellState::Prompt,
            ShellAction::Nothing,
        ),
        (ShellState::Exporting { .. }, ShellEvent::ExportFailed(e)) => (
            ShellState::Prompt,
            ShellAction::Complain(concat("Export failed: ", &e)),
        ),
        (ShellState::ConfirmOverwrite { vfs_name, to_disk }, ShellEvent::Line(answer)) => {
            if answered_yes(&answer) {
                (
                    ShellState::Exporting {
                        vfs_name: copy_text(&vfs_name),
                        to_disk: copy_text(&to_disk),
                        force: true,
                    },
                    ShellAction::ExportFile { vfs_name, to_disk, force: true },
                )
            } else {
                (
                    ShellState::Prompt,
                    ShellAction::Say(
                        copy_text("Export cancelled by user. Existing file was preserved.\n"),
                    ),
                )
            }
        },
        (state, _) => (state, ShellAction::Nothing),
    }
}

/// Nothing is extracted without a yes, and nothing is replaced without a second one: the shell
/// extracts only on a line that says yes to the question whether to extract, and replaces only on
/// a line that says yes to the question whether to replace.
pub proof fn law_export_needs_consent(
    state: ShellState<Seq<char>>,
    event: ShellEvent<Seq<char>>,
    table: Seq<FileIndex>,
)
    ensures
        shell_spec(state, event, table).1 matches ShellAction::ExportFile {
            vfs_name,
            to_disk,
            force,
        } ==> {
            &&& event matches ShellEvent::Line(answer) && is_yes(answer)
            &&& if force {
                state == (ShellState::ConfirmOverwrite { vfs_name, to_disk })
            } else {
                state == (ShellState::ConfirmExport { vfs_name, to_disk })
            }
        },
{
}

// ── Laws ─────────────────────────────────────────────────────────────────────

/// The names of the commands are nine different words.
proof fn lemma_command_names_differ()
    ensures
        "ls"@ != "import"@ && "ls"@ != "rm"@ && "ls"@ != "export"@ && "ls"@ != "cat"@,
        "ls"@ != "view"@ && "ls"@ != "vacuum"@ && "ls"@ != "help"@ && "ls"@ != "exit"@,
        "import"@ != "rm"@ && "import"@ != "export"@ && "import"@ != "cat"@ && "import"@ != "view"@,
        "import"@ != "vacuum"@ && "import"@ != "help"@ && "import"@ != "exit"@,
        "rm"@ != "export"@ && "rm"@ != "cat"@ && "rm"@ != "view"@ && "rm"@ != "vacuum"@,
        "rm"@ != "help"@ && "rm"@ != "exit"@,
        "export"@ != "cat"@ && "export"@ != "view"@ && "export"@ != "vacuum"@ && "export"@ != "help"@,
        "export"@ != "exit"@,
        "cat"@ != "view"@ && "cat"@ != "vacuum"@ && "cat"@ != "help"@ && "cat"@ != "exit"@,
        "view"@ != "vacuum"@ && "view"@ != "help"@ && "view"@ != "exit"@,
        "vacuum"@ != "help"@ && "vacuum"@ != "exit"@ && "help"@ != "exit"@,
{
    reveal_strlit("ls");
    reveal_strlit("import");
    reveal_strlit("rm");
    reveal_strlit("export");
    reveal_strlit("cat");
    reveal_strlit("view");
    reveal_strlit("vacuum");
    reveal_strlit("help");
    reveal_strlit("exit");
    assert("ls"@.len() == 2 && "rm"@.len() == 2 && "cat"@.len() == 3);
    assert("view"@.len() == 4 && "help"@.len() == 4 && "exit"@.len() == 4);
    assert("import"@.len() == 6 && "export"@.len() == 6 && "vacuum"@.len() == 6);
    assert("ls"@[0] == 'l' && "rm"@[0] == 'r');
    assert("view"@[0] == 'v' && "help"@[0] == 'h' && "exit"@[0] == 'e');
    assert("import"@[0] == 'i' && "export"@[0] == 'e' && "vacuum"@[0] == 'v');
}

/// Importing reads the file that the first argument names on the disk, and stores it under the
/// second; removing and showing take the file of the vault that the first argument names; and an
/// extraction asks first, and keeps in mind the file of the vault and the place on the disk, in
/// this order.
pub proof fn law_arguments_keep_their_places(
    first: Seq<char>,
    second: Seq<char>,
    more: Seq<Seq<char>>,
    table: Seq<FileIndex>,
)
    ensures
        command_spec(seq!["import"@, first, second] + more, table) == (
            ShellState::<Seq<char>>::Prompt,
            ShellAction::ImportFile { from_disk: first, vfs_name: second },
        ),
        command_spec(seq!["export"@, first, second] + more, table).0
            == (ShellState::ConfirmExport { vfs_name: first, to_disk: second }),
        command_spec(seq!["export"@, first, second] + more, table).1 is Ask,
        command_spec(seq!["rm"@, first] + more, table) == (
            ShellState::<Seq<char>>::Prompt,
            ShellAction::RemoveFile { vfs_name: first },
        ),
        command_spec(seq!["cat"@, first] + more, table) == (
            ShellState::<Seq<char>>::Prompt,
            ShellAction::ShowFile { vfs_name: first },
        ),
        command_spec(seq!["ls"@] + more, table) == (
            ShellState::<Seq<char>>::Prompt,
            ShellAction::<Seq<char>>::ListFiles,
        ),
        command_spec(seq!["vacuum"@] + more, table) == (
            ShellState::<Seq<char>>::Prompt,
            ShellAction::<Seq<char>>::Compact,
        ),
        command_spec(seq!["help"@] + more, table).0 is Prompt,
        command_spec(seq!["help"@] + more, table).1 == ShellAction::Say(HELP@),
        command_spec(seq!["exit"@] + more, table).0 is Closed,
        command_spec(seq!["exit"@] + more, table).1 is Leave,
{
    lemma_command_names_differ();
}

/// A file is viewed where the vault has a file of that name, and where it has none, nothing is
/// viewed and the name is in the complaint.
pub proof fn law_only_a_file_of_the_vault_is_viewed(
    name: Seq<char>,
    more: Seq<Seq<char>>,
    table: Seq<FileIndex>,
)
    ensures
        (exists|i: int| 0 <= i < table.len() && (#[trigger] table[i]).vfs_name@ == name)
            ==> command_spec(seq!["view"@, name] + more, table) == (
            ShellState::<Seq<char>>::Prompt,
            ShellAction::ViewFile { vfs_name: name },
        ),
        !(exists|i: int| 0 <= i < table.len() && (#[trigger] table[i]).vfs_name@ == name)
            ==> command_spec(seq!["view"@, name] + more, table) == (
            ShellState::<Seq<char>>::Prompt,
            ShellAction::Say("Error: File '"@ + name + "' not found inside the vault.\n"@),
        ),
{
    lemma_command_names_differ();
}

/// A command without the arguments it needs, a line without words and a word that is no command
/// touch no file: the shell says something or nothing, and waits for the next command.
pub proof fn law_incomplete_commands_touch_nothing(words: Seq<Seq<char>>, table: Seq<FileIndex>)
    requires
        words.len() > 0 ==> {
            ||| words[0] == "import"@ && words.len() < 3
            ||| words[0] == "export"@ && words.len() < 3
            ||| words[0] == "rm"@ && words.len() < 2
            ||| words[0] == "cat"@ && words.len() < 2
            ||| words[0] == "view"@ && words.len() < 2
            ||| words[0] != "ls"@ && words[0] != "import"@ && words[0] != "rm"@ && words[0]
                != "export"@ && words[0] != "cat"@ && words[0] != "view"@ && words[0] != "vacuum"@
                && words[0] != "help"@ && words[0] != "exit"@
        },
    ensures
        command_spec(words, table).0 is Prompt,
        words.len() == 0 ==> command_spec(words, table).1 is Nothing,
        words.len() > 0 ==> command_spec(words, table).1 is Say,
        words.len() > 0 && words[0] == "import"@ ==> command_spec(words, table).1
            == ShellAction::Say(
            "Error: Missing arguments.\n"@ + "Usage: "@
                + "import <from_disk_path> <target_vfs_name>\n"@,
        ),
        words.len() > 0 && words[0] == "export"@ ==> command_spec(words, table).1
            == ShellAction::Say(
            "Error: Missing arguments.\n"@ + "Usage: "@ + "export <vfs_name> <target_filename>\n"@,
        ),
        words.len() > 0 && words[0] == "rm"@ ==> command_spec(words, table).1 == ShellAction::Say(
            "Error: Missing argument.\n"@ + "Usage: "@ + "rm <vfs_name>\n"@,
        ),
        words.len() > 0 && words[0] == "cat"@ ==> command_spec(words, table).1 == ShellAction::Say(
            "Error: Missing argument.\n"@ + "Usage: "@ + "cat <vfs_name>\n"@,
        ),
        words.len() > 0 && words[0] == "view"@ ==> command_spec(words, table).1 == ShellAction::Say(
            "Error: Missing argument.\n"@ + "Usage: "@ + "view <vfs_name>\n"@,
        ),
{
    lemma_command_names_differ();
}

/// A word has characters, and no white space among them.
pub open spec fn is_word(w: Seq<char>) -> bool {
    w.len() > 0 && forall|i: int| 0 <= i < w.len() ==> !is_white_space(#[trigger] w[i])
}

/// Three words with white space between them, and around them, are typed as three words.
proof fn lemma_three_words(
    before: Seq<char>,
    a: Seq<char>,
    c: char,
    b: Seq<char>,
    d: char,
    e: Seq<char>,
    after: Seq<char>,
)
    requires
        all_white(before),
        all_white(after),
        is_word(a) && is_word(b) && is_word(e),
        is_white_space(c) && is_white_space(d),
    ensures
        words_spec(trim_spec(before + (a.push(c) + (b.push(d) + e)) + after)) == seq![a, b, e],
{
    let rest = b.push(d) + e;
    let s = a.push(c) + rest;
    assert(s[0] == a[0]);
    assert(s[s.len() - 1] == e[e.len() - 1]);
    law_trim_takes_white_space_from_the_ends(before, s, after);
    law_white_space_parts_words(a, c, rest);
    law_white_space_parts_words(b, d, e);
    law_one_word(a);
    law_one_word(b);
    law_one_word(e);
    assert(seq![a] + (seq![b] + seq![e]) =~= seq![a, b, e]);
}

/// At the prompt, the typed line `import <from_disk> <vfs_name>` imports the first file under the
/// second name, and `export <vfs_name> <to_disk>` asks whether to extract the first file to the
/// second place, whatever white space stands between the words and around them.
pub proof fn law_typed_line_names_source_and_target(
    before: Seq<char>,
    c: char,
    first: Seq<char>,
    d: char,
    second: Seq<char>,
    after: Seq<char>,
    table: Seq<FileIndex>,
)
    requires
        all_white(before),
        all_white(after),
        is_word(first) && is_word(second),
        is_white_space(c) && is_white_space(d),
    ensures
        shell_spec(
            ShellState::Prompt,
            ShellEvent::Line(before + ("import"@.push(c) + (first.push(d) + second)) + after),
            table,
        ).1 == (ShellAction::ImportFile { from_disk: first, vfs_name: second }),
        shell_spec(
            ShellState::Prompt,
            ShellEvent::Line(before + ("export"@.push(c) + (first.push(d) + second)) + after),
            table,
        ).0 == (ShellState::ConfirmExport { vfs_name: first, to_disk: second }),
{
    lemma_command_names_differ();
    reveal_strlit("import");
    reveal_strlit("export");
    lemma_three_words(before, "import"@, c, first, d, second, after);
    lemma_three_words(before, "export"@, c, first, d, second, after);
}

/// A yes is the letter y, small or capital, with nothing but white space around it; every other
/// answer is a no.
pub proof fn law_yes_is_the_letter(answer: Seq<char>)
    ensures
        is_yes(answer) <==> exists|a: Seq<char>, y: char, b: Seq<char>| #[trigger]
            (a.push(y) + b) == answer && (y == 'y' || y == 'Y') && all_white(a) && all_white(b),
{
    reveal_strlit("y");
    if is_yes(answer) {
        law_trim_keeps_the_rest(answer);
        let t = trim_spec(answer);
        let (a, b) = choose|a: Seq<char>, b: Seq<char>| #[trigger]
            (a + t + b) == answer && all_white(a) && all_white(b);
        assert(ascii_lower_text(t).len() == 1);
        assert(t.len() == 1);
        law_case_changes_letters_alone(t, 0);
        assert(ascii_lower_text(t)[0] == 'y');
        assert(a.push(t[0]) + b =~= answer);
    }
    if exists|a: Seq<char>, y: char, b: Seq<char>| #[trigger]
        (a.push(y) + b) == answer && (y == 'y' || y == 'Y') && all_white(a) && all_white(b) {
        let (a, y, b) = choose|a: Seq<char>, y: char, b: Seq<char>| #[trigger]
            (a.push(y) + b) == answer && (y == 'y' || y == 'Y') && all_white(a) && all_white(b);
        assert(a + seq![y] + b =~= answer);
        law_trim_takes_white_space_from_the_ends(a, seq![y], b);
        law_case_changes_letters_alone(seq![y], 0);
        assert(ascii_lower_text(seq![y]) =~= "y"@);
    }
}

/// A yes extracts the very file that was asked about to the very place, replacing nothing; where a
/// file is in the way, a second yes replaces it; every other answer extracts nothing. After an
/// extraction, whatever its outcome, the shell is back at its prompt, unless it asks whether to
/// replace.
pub proof fn law_answers_decide_the_extraction(
    vfs_name: Seq<char>,
    to_disk: Seq<char>,
    answer: Seq<char>,
    error: Seq<char>,
    table: Seq<FileIndex>,
)
    ensures
        is_yes(answer) ==> shell_spec(
            ShellState::ConfirmExport { vfs_name, to_disk },
            ShellEvent::Line(answer),
            table,
        ) == (
            ShellState::Exporting { vfs_name, to_disk, force: false },
            ShellAction::ExportFile { vfs_name, to_disk, force: false },
        ),
        is_yes(answer) ==> shell_spec(
            ShellState::ConfirmOverwrite { vfs_name, to_disk },
            ShellEvent::Line(answer),
            table,
        ) == (
            ShellState::Exporting { vfs_name, to_disk, force: true },
            ShellAction::ExportFile { vfs_name, to_disk, force: true },
        ),
        !is_yes(answer) ==> {
            let r = shell_spec(
                ShellState::ConfirmExport { vfs_name, to_disk },
                ShellEvent::Line(answer),
                table,
            );
            r.0 is Prompt && r.1 is Say
        },
        !is_yes(answer) ==> {
            let r = shell_spec(
                ShellState::ConfirmOverwrite { vfs_name, to_disk },
                ShellEvent::Line(answer),
                table,
            );
            r.0 is Prompt && r.1 is Say
        },
        shell_spec(
            ShellState::Exporting { vfs_name, to_disk, force: false },
            ShellEvent::ExportExists,
            table,
        ).0 == (ShellState::ConfirmOverwrite { vfs_name, to_disk }),
        shell_spec(
            ShellState::Exporting { vfs_name, to_disk, force: false },
            ShellEvent::ExportExists,
            table,
        ).1 is Ask,
        shell_spec(
            ShellState::Exporting { vfs_name, to_disk, force: true },
            ShellEvent::ExportExists,
            table,
        ).0 is Prompt,
        forall|force: bool|
            {
                let r = #[trigger] shell_spec(
                    ShellState::Exporting { vfs_name, to_disk, force },
                    ShellEvent::Exported,
                    table,
                );
                r.0 is Prompt && r.1 is Nothing
            },
        forall|force: bool|
            {
                let r = #[trigger] shell_spec(
                    ShellState::Exporting { vfs_name, to_disk, force },
                    ShellEvent::ExportFailed(error),
                    table,
                );
                r.0 is Prompt && r.1 == ShellAction::Complain("Export failed: "@ + error)
            },
{
}

/// What the shell waits for, is told and does is seen with all its texts, each in its own place.
pub proof fn law_texts_keep_their_places(
    a: String,
    b: String,
    force: bool,
)
    ensures
        (ShellAction::ImportFile { from_disk: a, vfs_name: b })@ == (ShellAction::ImportFile {
            from_disk: a@,
            vfs_name: b@,
        }),
        (ShellAction::ExportFile { vfs_name: a, to_disk: b, force })@ == (ShellAction::ExportFile {
            vfs_name: a@,
            to_disk: b@,
            force,
        }),
        (ShellAction::RemoveFile { vfs_name: a })@ == (ShellAction::RemoveFile { vfs_name: a@ }),
        (ShellAction::ShowFile { vfs_name: a })@ == (ShellAction::ShowFile { vfs_name: a@ }),
        (ShellAction::ViewFile { vfs_name: a })@ == (ShellAction::ViewFile { vfs_name: a@ }),
        (ShellState::ConfirmExport { vfs_name: a, to_disk: b })@ == (ShellState::ConfirmExport {
            vfs_name: a@,
            to_disk: b@,
        }),
        (ShellState::Exporting { vfs_name: a, to_disk: b, force })@ == (ShellState::Exporting {
            vfs_name: a@,
            to_disk: b@,
            force,
        }),
        (ShellState::ConfirmOverwrite { vfs_name: a, to_disk: b })@
            == (ShellState::ConfirmOverwrite { vfs_name: a@, to_disk: b@ }),
        ShellEvent::Line(a)@ == ShellEvent::Line(a@),
        ShellEvent::ExportFailed(a)@ == ShellEvent::ExportFailed(a@),
        ShellAction::Say(a)@ == ShellAction::Say(a@),
        ShellAction::Complain(a)@ == ShellAction::Complain(a@),
        ShellAction::Ask(a)@ == ShellAction::Ask(a@),
        ShellAction::Leave(a)@ == ShellAction::Leave(a@),
{
}

/// Before an extraction and before a replacement the shell asks, and says what is at stake.
pub proof fn law_questions_name_what_is_at_stake(
    first: Seq<char>,
    second: Seq<char>,
    table: Seq<FileIndex>,
)
    ensures
        command_spec(seq!["export"@, first, second], table).1 == ShellAction::Ask(
            "\n[WARNING] You are about to extract decrypted data to the physical disk (Staging Area).\nAre you sure you want to proceed? [y/N]: "@,
        ),
        shell_spec(
            ShellState::Exporting { vfs_name: first, to_disk: second, force: false },
            ShellEvent::ExportExists,
            table,
        ).1 == ShellAction::Ask(
            "Warning: The file already exists in the staging area. Do you want to overwrite it? [y/N]: "@,
        ),
        command_spec(seq!["exit"@], table).1 == ShellAction::Leave(
            "[Wiping] Purging ephemeral keys from RAM...\nLocking vault and exiting secure shell. Goodbye!\n"@,
        ),
{
    lemma_command_names_differ();
}

/// A word that is no command is shown, with question marks for control characters.
pub proof fn law_unknown_command_is_shown(word: Seq<char>, more: Seq<Seq<char>>, table: Seq<FileIndex>)
    requires
        word != "ls"@ && word != "import"@ && word != "rm"@ && word != "export"@ && word != "cat"@
            && word != "view"@ && word != "vacuum"@ && word != "help"@ && word != "exit"@,
    ensures
        command_spec(seq![word] + more, table).1 == ShellAction::Say(
            "Unknown command: '"@ + visible_text(word)
                + "'. Type 'help' for available commands.\n"@,
        ),
{
}

} // verus!
