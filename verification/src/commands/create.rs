//! Creating a vault.

use crate::bytes::{lemma_le_len, to_array};
use crate::crypto::{
    calibrate_kdf, derive_kek, generate_32_bytes, kdf_bytes, kdf_fault, law_kdf_bytes_injective,
    lemma_kdf_bytes_layout, rounds_spec, wrap_dek, KdfChoice, KdfSettings, UnlockedVault,
    VAULT_HEADER_SIZE,
};
use crate::primitives::{is_list_word, os_random, random_word, wipe_array};
use crate::storage::{
    is_metadata_blob, lemma_header_layout, load_result, save_vault_metadata, unlock_result,
    with_metadata, VaultError, VaultHeader,
};
use crate::text::{join_texts, joined, same_text, trim, trim_spec, views};
use crate::vault::{law_stored_loads, lemma_with_metadata_stored, stored, vault_wf};
use crate::vfs::{metadata_bytes, FileIndex, VaultMetadata};
use vstd::prelude::*;

verus! {

// ── Settings ─────────────────────────────────────────────────────────────────

/// The key derivation function of a name.
pub open spec fn kdf_named(name: Seq<char>) -> Option<KdfChoice> {
    if name == "argon2id"@ {
        Some(KdfChoice::Argon2id)
    } else if name == "scrypt"@ {
        Some(KdfChoice::Scrypt)
    } else {
        None
    }
}

/// The key derivation function of a name.
pub fn parse_kdf(name: &str) -> (r: Option<KdfChoice>)
    ensures
        r == kdf_named(name@),
{
    if same_text(name, "argon2id") {
        Some(KdfChoice::Argon2id)
    } else if same_text(name, "scrypt") {
        Some(KdfChoice::Scrypt)
    } else {
        None
    }
}

/// The memory that a key derivation function uses where none is given: 64 MiB for Argon2id and
/// 256 MiB for scrypt.
pub open spec fn default_memory_kib(choice: KdfChoice) -> u32 {
    match choice {
        KdfChoice::Argon2id => 65536,
        KdfChoice::Scrypt => 262144,
    }
}

/// The settings for a new vault: what the user gave, the defaults of the function, all cores of
/// the machine, and a number of rounds tuned to the decryption time.
pub fn creation_settings(
    choice: KdfChoice,
    memory: Option<u32>,
    transform_rounds: Option<u32>,
    parallelism: Option<u32>,
    decryption_time: u32,
    cores: u32,
) -> (r: KdfSettings)
    ensures
        r.choice == choice,
        r.memory_kib == (match memory {
            Some(m) => m,
            None => default_memory_kib(choice),
        }),
        r.parallelism == (match parallelism {
            Some(p) => p,
            None => cores,
        }),
        match transform_rounds {
            Some(n) => r.iterations == n,
            None => exists|elapsed_ms: u32|
                r.iterations == #[trigger] rounds_spec(decryption_time, elapsed_ms, choice),
        },
{
    let memory_kib: u32 = match memory {
        Some(m) => m,
        None => match choice {
            KdfChoice::Argon2id => 65536,
            KdfChoice::Scrypt => 262144,
        },
    };
    let lanes: u32 = match parallelism {
        Some(p) => p,
        None => cores,
    };
    let iterations: u32 = match transform_rounds {
        Some(n) => n,
        None => calibrate_kdf(decryption_time, choice, memory_kib, lanes),
    };
    KdfSettings { choice, memory_kib, iterations, parallelism: lanes }
}

// ── Passphrases ──────────────────────────────────────────────────────────────

/// The number of words of a generated passphrase.
pub const PASSPHRASE_WORDS: usize = 10;

/// Joins words with single spaces.
pub fn join_words(words: &Vec<String>) -> (r: String)
    ensures
        r@ == joined(views(words@), " "@),
{
    join_texts(words, " ")
}

/// A passphrase of ten words of the EFF list with single spaces between them.
pub fn generate_passphrase() -> (r: String)
    ensures
        exists|words: Seq<Seq<char>>|
            words.len() == PASSPHRASE_WORDS && words.len() == 10 && (forall|i: int|
                0 <= i < words.len() ==> is_list_word(#[trigger] words[i])) && r@
                == #[trigger] joined(words, " "@),
{
    let mut words: Vec<String> = Vec::new();
    let mut i: usize = 0;
    while i < PASSPHRASE_WORDS
        invariant
            i <= PASSPHRASE_WORDS,
            words@.len() == i,
            forall|j: int| 0 <= j < i ==> is_list_word((#[trigger] words@[j])@),
        decreases PASSPHRASE_WORDS - i,
    {
        words.push(random_word());
        i = i + 1;
    }
    let r: String = join_words(&words);
    proof {
        let w = views(words@);
        assert forall|j: int| 0 <= j < w.len() implies is_list_word(#[trigger] w[j]) by {
            assert(w[j] == words@[j]@);
        }
        assert(r@ == joined(w, " "@));
    }
    r
}

// ── The vault file ───────────────────────────────────────────────────────────

/// The length of a vault file that holds nothing: the header, and the metadata of an empty table.
pub const EMPTY_VAULT_LEN: usize = 224;

/// An empty table takes eight bytes for its count and 32 for the salt.
pub proof fn lemma_empty_metadata_len(salt: Seq<u8>)
    requires
        salt.len() == 32,
    ensures
        metadata_bytes((Seq::empty(), salt)).len() == 40,
{
    lemma_le_len(0, 8);
    let none: Seq<(Seq<char>, Seq<(usize, u64, Seq<u8>, usize)>, u64)> = Seq::empty();
    let f = |f: (Seq<char>, Seq<(usize, u64, Seq<u8>, usize)>, u64)| crate::vfs::file_bytes(f);
    assert(none.map_values(f) =~= Seq::<Seq<u8>>::empty());
}

/// The password opens the file to the data key and an empty table, and nothing lies behind the
/// metadata.
pub open spec fn opens_empty(
    image: Seq<u8>,
    password: Seq<char>,
    dek: Seq<u8>,
    cdc_salt: Seq<u8>,
) -> bool {
    let m = (Seq::<(Seq<char>, Seq<(usize, u64, Seq<u8>, usize)>, u64)>::empty(), cdc_salt);
    &&& dek.len() == 32
    &&& cdc_salt.len() == 32
    &&& unlock_result(image, password) == Ok::<Seq<u8>, VaultError>(dek)
    &&& stored(image, dek, m, VAULT_HEADER_SIZE as int)
    &&& load_result(image, password) == Ok::<
        (
            (Seq<(Seq<char>, Seq<(usize, u64, Seq<u8>, usize)>, u64)>, Seq<u8>),
            Seq<u8>,
            nat,
        ),
        VaultError,
    >((m, dek, VAULT_HEADER_SIZE as nat))
}

/// Makes a new vault file: a header with fresh salt and data key, and an empty file table.
///
/// A password that is empty but for white space is refused, and so are settings that the key
/// derivation does not accept. The file that comes out otherwise opens with the password, to an
/// empty table, and holds nothing but header and metadata.
pub fn create_vault(password: &str, settings: &KdfSettings) -> (r: Result<Vec<u8>, VaultError>)
    ensures
        trim_spec(password@).len() == 0 ==> r == Err::<Vec<u8>, VaultError>(
            VaultError::EmptyPassword,
        ),
        trim_spec(password@).len() > 0 ==> match kdf_fault(password@, *settings) {
            Some(e) => r == Err::<Vec<u8>, VaultError>(VaultError::Kdf(e)),
            None => r is Ok,
        },
        r matches Ok(image) ==> {
            &&& image@.len() == EMPTY_VAULT_LEN
            &&& image@.len() == 224
            &&& image@.subrange(8, 21) == kdf_bytes(*settings)
            &&& vault_wf(image@, Seq::<FileIndex>::empty(), VAULT_HEADER_SIZE as int)
            &&& exists|dek: Seq<u8>, cdc_salt: Seq<u8>| #[trigger]
                opens_empty(image@, password@, dek, cdc_salt)
        },
{
    proof {
        reveal_strlit("");
        assert(trim_spec(password@).len() == 0 ==> trim_spec(password@) =~= ""@);
    }
    if same_text(&trim(password), "") {
        return Err(VaultError::EmptyPassword);
    }
    let salt: [u8; 32] = generate_32_bytes();
    let dek: [u8; 32] = generate_32_bytes();
    let mut kek: [u8; 32] = match derive_kek(password, &salt, settings) {
        Ok(k) => k,
        Err(e) => return Err(VaultError::Kdf(e)),
    };
    let ghost kek_bytes = kek@;
    let wrapped = wrap_dek(&kek, &dek);
    wipe_array(&mut kek);
    let (wrapped_dek, dek_nonce) = match wrapped {
        Ok(w) => w,
        Err(e) => return Err(VaultError::Encrypt(e)),
    };
    let header: VaultHeader = VaultHeader {
        master_pointer: VAULT_HEADER_SIZE,
        kdf: *settings,
        salt,
        dek_nonce,
        wrapped_dek: to_array(&wrapped_dek),
    };
    let mut image: Vec<u8> = header.to_bytes();
    let ghost head = image@;
    let cdc_salt: [u8; 32] = to_array(&os_random(32));
    let metadata: VaultMetadata = VaultMetadata { file_table: Vec::new(), cdc_salt };
    let mut unlocked: UnlockedVault = UnlockedVault { dek };
    proof {
        assert(metadata@.0 =~= Seq::empty());
        lemma_empty_metadata_len(cdc_salt@);
    }
    let saved = save_vault_metadata(&mut image, &metadata, &unlocked, VAULT_HEADER_SIZE);
    unlocked.wipe();
    match saved {
        Ok(()) => {
            proof {
                let m = metadata@;
                let blob = choose|blob: Seq<u8>|
                    is_metadata_blob(dek@, blob, m, 40) && image@ == #[trigger] with_metadata(
                        head,
                        VAULT_HEADER_SIZE as int,
                        blob,
                    );
                lemma_with_metadata_stored(head, dek@, blob, m, VAULT_HEADER_SIZE as int, 40);
                lemma_header_layout(header);
                lemma_le_len(VAULT_HEADER_SIZE as nat, 8);
                assert forall|i: int| 8 <= i < 125 implies image@[i] == head[i] by {}
                assert(image@.subrange(8, 21) =~= head.subrange(8, 21));
                assert(image@.subrange(21, 53) =~= head.subrange(21, 53));
                assert(image@.subrange(53, 77) =~= head.subrange(53, 77));
                assert(image@.subrange(77, 125) =~= head.subrange(77, 125));
                lemma_kdf_bytes_layout(*settings);
                assert(image@[8] == image@.subrange(8, 21)[0]);
                let kdf = choose|k: KdfSettings| #[trigger] kdf_bytes(k) == image@.subrange(8, 21);
                assert(kdf_bytes(*settings) == image@.subrange(8, 21));
                law_kdf_bytes_injective(kdf, *settings);
                assert(unlock_result(image@, password@) == Ok::<Seq<u8>, VaultError>(dek@));
                law_stored_loads(image@, password@, dek@, m, VAULT_HEADER_SIZE as nat);
                assert(opens_empty(image@, password@, dek@, cdc_salt@));
            }
            Ok(image)
        },
        Err(e) => Err(e),
    }
}

// ── Laws ─────────────────────────────────────────────────────────────────────

/// The two key derivation functions have names of their own, and no other name stands for one; each
/// has its default memory, 64 and 256 mebibytes.
pub proof fn law_key_derivation_names(name: Seq<char>)
    ensures
        kdf_named(name) == Some(KdfChoice::Argon2id) <==> name == "argon2id"@,
        kdf_named(name) == Some(KdfChoice::Scrypt) <==> name == "scrypt"@,
        default_memory_kib(KdfChoice::Argon2id) == 64 * 1024,
        default_memory_kib(KdfChoice::Scrypt) == 256 * 1024,
{
    reveal_strlit("argon2id");
    reveal_strlit("scrypt");
    assert("argon2id"@.len() == 8 && "scrypt"@.len() == 6);
}

/// A new vault opens with its password to a table without files.
pub proof fn law_new_vault_is_empty(
    image: Seq<u8>,
    password: Seq<char>,
    dek: Seq<u8>,
    cdc_salt: Seq<u8>,
)
    requires
        opens_empty(image, password, dek, cdc_salt),
    ensures
        load_result(image, password) matches Ok((m, key, end)) && m.0.len() == 0 && m.1 == cdc_salt
            && key == dek && end == 125,
        dek.len() == 32 && cdc_salt.len() == 32,
{
}

} // verus!
