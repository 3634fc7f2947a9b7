//! Account records and the rules for creating them.

use vstd::prelude::*;
use vstd::slice::slice_subrange;
use vstd::utf8::encode_utf8;

use crate::text::all_digits;
use crate::text::decimal_value;
use crate::text::parse_decimal_u64;

verus! {

/// The first uid that is handed out.
pub const STARTING_UID: u32 = 10000;

/// Shortest and longest username, in bytes.
pub const USERNAME_MIN_LEN: usize = 4;
pub const USERNAME_MAX_LEN: usize = 12;

/// Shortest password, in bytes.
pub const PASSWORD_MIN_LEN: usize = 4;

/// A registered account.
#[derive(Clone, Debug)]
pub struct AccountDoc {
    pub uid: u32,
    pub username: String,
    pub password_hash: String,
    pub token: String,
    pub is_banned: bool,
    pub ban_reason: Option<String>,
}

/// The counter from which uids are drawn.
#[derive(Clone, Debug)]
pub struct AccountMetaDoc {
    pub id: String,
    pub next_uid: u32,
}

/// Checks the lengths of a registration request: a username of 4 to 12 bytes
/// and a password of at least 4 bytes, the username checked first.
pub fn validate_registration(username: &str, password: &str) -> (r: Result<(), &'static str>)
    ensures
        r is Ok <==> (USERNAME_MIN_LEN <= encode_utf8(username@).len() <= USERNAME_MAX_LEN
            && encode_utf8(password@).len() >= PASSWORD_MIN_LEN),
        r matches Err(m) ==> m@ == if USERNAME_MIN_LEN <= encode_utf8(username@).len()
            <= USERNAME_MAX_LEN {
            "Password length must be over 4"@
        } else {
            "Username length must be between 4-12"@
        },
{
    if username.as_bytes().len() < USERNAME_MIN_LEN || username.as_bytes().len() > USERNAME_MAX_LEN {
        return Err("Username length must be between 4-12");
    }
    if password.as_bytes().len() < PASSWORD_MIN_LEN {
        return Err("Password length must be over 4");
    }
    Ok(())
}

/// A login by uid and token.
#[derive(Clone, Debug)]
pub struct ShieldVerifyRequest {
    pub uid: String,
    pub token: String,
}

/// The digits of an unsigned decimal number written with an optional leading `+`.
pub open spec fn unsigned_digits(b: Seq<u8>) -> Seq<u8> {
    if b.len() > 0 && b[0] == 0x2B {
        b.subrange(1, b.len() as int)
    } else {
        b
    }
}

/// The value of an unsigned decimal number that fits 32 bits: an optional
/// `+`, then at least one ASCII digit.
pub open spec fn uid_value(b: Seq<u8>) -> Option<u32> {
    let d = unsigned_digits(b);
    if d.len() > 0 && all_digits(d) && decimal_value(d) <= u32::MAX {
        Some(decimal_value(d) as u32)
    } else {
        None
    }
}

impl ShieldVerifyRequest {
    /// The uid as a number; `None` when it is not a decimal number that fits
    /// 32 bits.
    pub fn parse_uid(&self) -> (r: Option<u32>)
        ensures
            r == uid_value(encode_utf8(self.uid@)),
    {
        let b = self.uid.as_str().as_bytes();
        let digits = if b.len() > 0 && b[0] == 0x2B {
            slice_subrange(b, 1, b.len())
        } else {
            b
        };
        match parse_decimal_u64(digits) {
            Some(v) => {
                if v <= u32::MAX as u64 {
                    Some(v as u32)
                } else {
                    None
                }
            },
            None => None,
        }
    }
}

impl AccountDoc {
    /// A new account that is not banned.
    pub fn new(uid: u32, username: String, password_hash: String, token: String) -> (r: AccountDoc)
        ensures
            r.uid == uid,
            r.username == username,
            r.password_hash == password_hash,
            r.token == token,
            !r.is_banned,
            r.ban_reason is None,
    {
        AccountDoc { uid, username, password_hash, token, is_banned: false, ban_reason: None }
    }
}

impl AccountMetaDoc {
    /// The counter that a store without one starts with: `STARTING_UID` goes
    /// to the first account, so the counter holds the uid after it.
    pub fn initial() -> (r: AccountMetaDoc)
        ensures
            r.id@ == "meta"@,
            r.next_uid == STARTING_UID + 1,
    {
        AccountMetaDoc { id: "meta".to_owned(), next_uid: STARTING_UID + 1 }
    }

    /// The uid for a new account, from the counter as it stood before the
    /// store incremented it; with no counter yet, the first uid.
    pub fn next_uid_from(previous: Option<&AccountMetaDoc>) -> (uid: u32)
        ensures
            uid == match previous {
                Some(doc) => doc.next_uid,
                None => STARTING_UID,
            },
    {
        match previous {
            Some(doc) => doc.next_uid,
            None => STARTING_UID,
        }
    }
}

} // verus!
