//! The link that friends are given.

use crate::commands::p2p_utils::atom_uri;
use crate::config_crypto::{config_content, decrypt_config, ConfigError};
use crate::text::{
    chars_of, concat, copy_text, from_utf8, lemma_ascii_utf8_len, lemma_find_char, starts_with,
    string_of, trim, trim_spec,
};
use vstd::prelude::*;
use vstd::slice::slice_subrange;
use vstd::utf8::{
    decode_utf8, encode_utf8, encode_utf8_decode_utf8, encode_utf8_valid_utf8, valid_utf8,
};

verus! {

/// Why the link cannot be shown.
#[derive(Debug, Clone, PartialEq, Eq)]
pub enum IdError {
    /// There is none yet.
    NotGenerated,
    /// The file does not decrypt.
    Config(ConfigError),
    /// The file holds no text; the decoder says why.
    NotText(String),
}

/// Which error it is.
pub enum IdFault {
    NotGenerated,
    Config(ConfigError),
    NotText,
}

impl IdError {
    /// Which error it is.
    pub open spec fn fault(self) -> IdFault {
        match self {
            IdError::NotGenerated => IdFault::NotGenerated,
            IdError::Config(e) => IdFault::Config(e),
            IdError::NotText(_) => IdFault::NotText,
        }
    }

    /// The words of an error.
    pub open spec fn text(self) -> Seq<char> {
        match self {
            IdError::NotGenerated => "Identity not generated yet. Run 'atom daemon' first."@,
            IdError::Config(e) => e.text(),
            IdError::NotText(words) => words@,
        }
    }

    /// The words of an error.
    pub fn message(&self) -> (r: String)
        ensures
            r@ == self.text(),
    {
        match self {
            IdError::NotGenerated => copy_text(
                "Identity not generated yet. Run 'atom daemon' first.",
            ),
            IdError::Config(e) => copy_text(e.message()),
            IdError::NotText(words) => copy_text(words),
        }
    }
}

/// The link that a file holds: its decrypted text without white space at the ends.
pub open spec fn id_result(key: Seq<u8>, file: Option<Seq<u8>>) -> Result<Seq<char>, IdFault> {
    match file {
        None => Err(IdFault::NotGenerated),
        Some(raw) => match config_content(key, raw) {
            Err(e) => Err(IdFault::Config(e)),
            Ok(plain) => if valid_utf8(plain) {
                Ok(trim_spec(decode_utf8(plain)))
            } else {
                Err(IdFault::NotText)
            },
        },
    }
}

/// The content of an optional file.
pub open spec fn optional_bytes(b: Option<Vec<u8>>) -> Option<Seq<u8>> {
    match b {
        Some(v) => Some(v@),
        None => None,
    }
}

/// The link that a file holds. Of a file that holds no text, the words of the error are the
/// decoder's own.
pub fn get_id_string(key: &[u8; 32], file: &Option<Vec<u8>>) -> (r: Result<String, IdError>)
    ensures
        match id_result(key@, optional_bytes(*file)) {
            Ok(s) => r matches Ok(t) && t@ == s,
            Err(f) => r matches Err(e) && e.fault() == f,
        },
{
    match file {
        None => Err(IdError::NotGenerated),
        Some(raw) => match decrypt_config(key, raw) {
            Err(e) => Err(IdError::Config(e)),
            Ok(plain) => match from_utf8(plain) {
                Ok(t) => Ok(trim(&t)),
                Err(words) => Err(IdError::NotText(words)),
            },
        },
    }
}

/// The text without any number of repetitions of a head.
pub open spec fn beheaded(s: Seq<char>, head: Seq<char>) -> Seq<char>
    decreases s.len(),
{
    if head.len() > 0 && head.is_prefix_of(s) {
        beheaded(s.subrange(head.len() as int, s.len() as int), head)
    } else {
        s
    }
}

/// A link without its scheme.
pub fn without_scheme(s: &str) -> (r: String)
    ensures
        r@ == beheaded(s@, "atom://"@),
    decreases s@.len(),
{
    proof {
        reveal_strlit("atom://");
    }
    if starts_with(s, "atom://") {
        let chars: Vec<char> = chars_of(s);
        let rest: String = string_of(slice_subrange(&chars, 7, chars.len()));
        without_scheme(&rest)
    } else {
        copy_text(s)
    }
}

/// The lines that show the link, with its scheme once however it is stored, or what to do to get
/// one.
pub fn handle_id(id: &Result<String, IdError>) -> (r: (String, &'static str))
    ensures
        match *id {
            Ok(link) => r.0@ == "🔗 Your Link : atom://"@ + beheaded(link@, "atom://"@) && r.1@
                == "🔒 Status    : Ready to host (Run 'atom daemon')"@,
            Err(e) => r.0@ == "⚠️ "@ + e.text() && r.1@
                == "👉 Run 'atom daemon' once to generate your embedded Tor identity!"@,
        },
{
    match id {
        Ok(link) => (
            concat("🔗 Your Link : atom://", &without_scheme(link)),
            "🔒 Status    : Ready to host (Run 'atom daemon')",
        ),
        Err(e) => (
            concat("⚠️ ", &e.message()),
            "👉 Run 'atom daemon' once to generate your embedded Tor identity!",
        ),
    }
}

/// What is shown of a link that a friend can read is that link.
pub proof fn law_shown_link_is_the_link(link: Seq<char>)
    requires
        atom_uri(link) is Ok,
    ensures
        "atom://"@ + beheaded(link, "atom://"@) == link,
{
    reveal_strlit("atom://");
    let rest = link.subrange(7, link.len() as int);
    assert(link =~= "atom://"@ + rest) by {
        assert(link.subrange(0, 7) =~= "atom://"@);
    }
    if "atom://"@.is_prefix_of(rest) {
        assert(rest.subrange(0, 7) =~= "atom://"@);
        assert forall|j: int| 0 <= j < 5 implies rest[j] != '/' by {
            assert(rest[j] == rest.subrange(0, 7)[j]);
        }
        assert(rest[5] == rest.subrange(0, 7)[5]);
        lemma_find_char(rest, '/', 5);
        let onion = rest.subrange(0, 5);
        assert forall|j: int| 0 <= j < 5 implies (#[trigger] onion[j] as u32) < 128 by {
            assert(onion[j] == rest.subrange(0, 7)[j]);
        }
        lemma_ascii_utf8_len(onion);
        assert(false);
    }
    assert(beheaded(rest, "atom://"@) == rest);
}

// ── Laws ─────────────────────────────────────────────────────────────────────

/// The own link is the text of its file, decrypted, without white space at the ends; without a file
/// there is none yet.
pub proof fn law_link_is_the_text_of_its_file(key: Seq<u8>, raw: Seq<u8>, link: Seq<char>)
    ensures
        id_result(key, None) == Err::<Seq<char>, IdFault>(IdFault::NotGenerated),
        config_content(key, raw) == Ok::<Seq<u8>, ConfigError>(encode_utf8(link)) ==> id_result(
            key,
            Some(raw),
        ) == Ok::<Seq<char>, IdFault>(trim_spec(link)),
        config_content(key, raw) matches Err(e) ==> id_result(key, Some(raw)) == Err::<
            Seq<char>,
            IdFault,
        >(IdFault::Config(e)),
        (config_content(key, raw) matches Ok(plain) && !valid_utf8(plain)) ==> id_result(
            key,
            Some(raw),
        ) == Err::<Seq<char>, IdFault>(IdFault::NotText),
{
    encode_utf8_valid_utf8(link);
    encode_utf8_decode_utf8(link);
}

/// Repetitions of a head are taken off the front of a text, and nothing else of it.
pub proof fn law_heads_are_taken_off(s: Seq<char>, head: Seq<char>)
    requires
        head.len() > 0,
    ensures
        beheaded(head + s, head) == beheaded(s, head),
        !head.is_prefix_of(s) ==> beheaded(s, head) == s,
{
    let all = head + s;
    assert(all.subrange(0, head.len() as int) =~= head);
    assert(all.subrange(head.len() as int, all.len() as int) =~= s);
}

/// The words where there is no link to show say why.
pub proof fn law_id_errors_in_words(e: IdError)
    ensures
        match e {
            IdError::NotGenerated => e.text()
                == "Identity not generated yet. Run 'atom daemon' first."@,
            IdError::Config(c) => e.text() == c.text(),
            IdError::NotText(words) => e.text() == words@,
        },
        match e {
            IdError::NotGenerated => e.fault() is NotGenerated,
            IdError::Config(c) => e.fault() == IdFault::Config(c),
            IdError::NotText(_) => e.fault() is NotText,
        },
{
}

} // verus!
