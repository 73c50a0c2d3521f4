# Atom Vault

An encrypted virtual file system with peer-to-peer transfer, as a library whose logic is verified
with Verus and a program around it.

A vault is one file: a header that wraps the data key under a password, the encrypted chunks of the
files, and an encrypted table at the end to which the header points. Vaults travel between friends
over onion services, over a live channel between paired peers, or through a blind store that sees
only equally long ciphertexts under random names.

## Layout

- `src/` — the library. Every function states in its contract what it returns and changes.
  - `text`, `bytes`, `base32`, `paths`, `human`: texts, numbers, encodings and paths.
  - `primitives`: the outside cryptography, randomness and clocks, each behind one small function.
  - `crypto`, `storage`, `vault`, `vfs`, `contents`, `chunker`: keys, the header, the file table,
    and what a vault holds.
  - `config_crypto`, `secure_input`, `sandbox`: configuration files, passwords, confinement.
  - `cli`, `cmd`, `commands`: what the commands decide and say.
  - `gui`: the state of the windows.
  - `p2p_direct`: the transfer through a blind store.
- `app/` — the program: arguments, files, the network, processes and the window.
- `tests/` — tests of the library with the outside crates linked.

The public proof functions whose names begin with `law_` state what holds of several functions
together: that a vault which is saved loads again, that a download after an upload gives the data
back, that an address book never binds a nickname to a second identity.
