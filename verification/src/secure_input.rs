//! Collecting a password from a terminal, byte by byte.

use crate::primitives::wipe_bytes;
use crate::text::from_utf8;
use vstd::prelude::*;
use vstd::utf8::{decode_utf8, valid_utf8};

verus! {

/// The bytes of a password that are kept; what is typed beyond is dropped.
pub const PASSWORD_CAPACITY: usize = 128;

/// The bytes that end a password.
pub open spec fn ends_input(b: u8) -> bool {
    b == 10 || b == 13
}

/// A password that is being typed.
pub struct PasswordInput {
    pub bytes: Vec<u8>,
}

/// The bytes that are kept of what was typed.
pub open spec fn kept(typed: Seq<u8>) -> Seq<u8> {
    if typed.len() <= PASSWORD_CAPACITY {
        typed
    } else {
        typed.subrange(0, PASSWORD_CAPACITY as int)
    }
}

impl PasswordInput {
    /// Nothing has been typed.
    pub fn new() -> (r: Self)
        ensures
            r.bytes@ == kept(Seq::empty()),
    {
        let r: PasswordInput = PasswordInput { bytes: Vec::new() };
        assert(r.bytes@ =~= kept(Seq::empty()));
        r
    }

    /// Takes a byte from the terminal and says whether it ends the password.
    pub fn push(&mut self, b: u8) -> (done: bool)
        ensures
            done == ends_input(b),
            done <==> b == 10 || b == 13,
            done ==> final(self).bytes@ == old(self).bytes@,
            !done ==> final(self).bytes@ == if old(self).bytes@.len() < 128 {
                old(self).bytes@.push(b)
            } else {
                old(self).bytes@
            },
            !done ==> forall|typed: Seq<u8>|
                old(self).bytes@ == kept(typed) ==> final(self).bytes@ == #[trigger] kept(
                    typed.push(b),
                ),
    {
        if b == 10 || b == 13 {
            return true;
        }
        let ghost before = self.bytes@;
        if self.bytes.len() < PASSWORD_CAPACITY {
            self.bytes.push(b);
        }
        proof {
            assert forall|typed: Seq<u8>| before == kept(typed) implies self.bytes@
                == #[trigger] kept(typed.push(b)) by {
                if typed.len() < PASSWORD_CAPACITY {
                    assert(self.bytes@ =~= typed.push(b));
                } else {
                    assert(kept(typed) =~= typed.subrange(0, PASSWORD_CAPACITY as int));
                    assert(kept(typed.push(b)) =~= kept(typed));
                }
            }
        }
        false
    }

    /// The password, where what was typed is text.
    pub fn finish(self) -> (r: Result<String, &'static str>)
        ensures
            valid_utf8(self.bytes@) ==> (r matches Ok(s) && s@ == decode_utf8(self.bytes@)),
            !valid_utf8(self.bytes@) ==> (r matches Err(e) && e@
                == "Invalid UTF-8 sequence in password"@),
    {
        match from_utf8(self.bytes) {
            Ok(s) => Ok(s),
            Err(_) => Err("Invalid UTF-8 sequence in password"),
        }
    }

    /// Overwrites what was typed with zeros and forgets it.
    pub fn wipe(&mut self)
        ensures
            final(self).bytes@.len() == 0,
    {
        wipe_bytes(&mut self.bytes);
    }
}

// ── Laws ─────────────────────────────────────────────────────────────────────

/// What is kept of a password is its beginning, of up to 128 bytes, as it was typed.
pub proof fn law_beginning_of_a_password_is_kept(typed: Seq<u8>)
    ensures
        kept(typed).len() == if typed.len() < 128 {
            typed.len()
        } else {
            128
        },
        kept(typed) == typed.subrange(0, kept(typed).len() as int),
{
    assert(typed.subrange(0, typed.len() as int) =~= typed);
}

/// A password ends with a line feed or a carriage return and with no other byte.
pub proof fn law_only_line_ends_end_a_password(b: u8)
    ensures
        ends_input(b) <==> b == '\n' as u8 || b == '\r' as u8,
{
}

} // verus!
