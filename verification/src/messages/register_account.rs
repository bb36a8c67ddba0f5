//! Announcement to the central server that a new account is being created.

use crate::bytes::{
    dec_str, encode_utf8_fits, lemma_dec_str_field, lemma_dec_str_field_cut, push_str_field, read_str_field, str_field,
    then, ByteCursor, Decoded,
};
use vstd::prelude::*;

verus! {

/// Operation code of an account registration.
pub const REG_ACCOUNT: u8 = 0;

/// Same operation code, under the name the server side uses.
pub const REG_CODE: u8 = 0;

/// Carries the username (immutable, used to log in) and the display name of
/// a new account. The account starts with no enabled region.
#[derive(Debug, Clone, PartialEq)]
pub struct RegisterAccountMessage {
    username: String,
    display_name: String,
}

impl View for RegisterAccountMessage {
    /// `(username, display_name)`
    type V = (Seq<char>, Seq<char>);

    closed spec fn view(&self) -> (Seq<char>, Seq<char>) {
        (self.username@, self.display_name@)
    }
}

/// The encoding of a registration, operation code included.
pub open spec fn register_account_wire(v: (Seq<char>, Seq<char>)) -> Seq<u8> {
    seq![REG_ACCOUNT] + str_field(v.0) + str_field(v.1)
}

/// Decoding of a registration whose operation code was already consumed.
pub open spec fn dec_register_account(b: Seq<u8>) -> Decoded<(Seq<char>, Seq<char>)> {
    then(
        dec_str(b),
        |u: Seq<char>, r: Seq<u8>|
            then(dec_str(r), |d: Seq<char>, r2: Seq<u8>| Decoded::Value((u, d), r2)),
    )
}

impl RegisterAccountMessage {
    pub fn new(username: String, display_name: String) -> (m: Self)
        ensures
            m@ == (username@, display_name@),
    {
        RegisterAccountMessage { username, display_name }
    }

    pub fn username(&self) -> (s: String)
        ensures
            s@ == self@.0,
    {
        self.username.clone()
    }

    /// The display name.
    pub fn name(&self) -> (s: String)
        ensures
            s@ == self@.1,
    {
        self.display_name.clone()
    }

    pub fn display_name(&self) -> (s: String)
        ensures
            s@ == self@.1,
    {
        self.display_name.clone()
    }

    /// `[code, username_len, username, display_name_len, display_name]`,
    /// numbers in big endian.
    pub fn serialize(&self) -> (buf: Vec<u8>)
        ensures
            buf@ == register_account_wire(self@),
    {
        let mut buf: Vec<u8> = Vec::new();
        buf.push(REG_ACCOUNT);
        push_str_field(&mut buf, self.username.as_str());
        push_str_field(&mut buf, self.display_name.as_str());
        assert(buf@ =~= register_account_wire(self@));
        buf
    }

    /// Decodes a registration (without its operation code). `None` when a
    /// string is not UTF-8.
    pub fn deserialize_checked(bytes: &[u8]) -> (r: Option<Result<Self, String>>)
        ensures
            r is None <==> dec_register_account(bytes@) is Invalid,
            dec_register_account(bytes@) matches Decoded::Value(v, _) ==> (r matches Some(Ok(m))
                && m@ == v),
            dec_register_account(bytes@) is Short ==> (r matches Some(Err(_))),
    {
        let mut cursor = ByteCursor::new(vstd::slice::slice_to_vec(bytes));
        let username = match read_str_field(&mut cursor) {
            Ok(Some(s)) => s,
            Ok(None) => return None,
            Err(e) => return Some(Err(e.to_string())),
        };
        let display_name = match read_str_field(&mut cursor) {
            Ok(Some(s)) => s,
            Ok(None) => return None,
            Err(e) => return Some(Err(e.to_string())),
        };
        Some(Ok(RegisterAccountMessage { username, display_name }))
    }

    /// Decodes a registration (without its operation code). Its strings
    /// must be UTF-8 wherever the input holds them.
    pub fn deserialize(bytes: &[u8]) -> (r: Result<Self, String>)
        requires
            !(dec_register_account(bytes@) is Invalid),
        ensures
            dec_register_account(bytes@) matches Decoded::Value(v, _) ==> (r matches Ok(m) && m@
                == v),
            dec_register_account(bytes@) is Short ==> r is Err,
    {
        match Self::deserialize_checked(bytes) {
            Some(r) => r,
            None => {
                proof {
                    assert(false);
                }
                Err("invalid text".to_string())
            },
        }
    }
}

/// Decoding the encoding of a registration, without its operation code,
/// gives the same username and display name back.
pub proof fn lemma_register_account_roundtrip(v: (Seq<char>, Seq<char>))
    requires
        encode_utf8_fits(v.0),
        encode_utf8_fits(v.1),
    ensures
        dec_register_account(register_account_wire(v).skip(1)) == Decoded::Value(
            v,
            Seq::<u8>::empty(),
        ),
{
    let w = register_account_wire(v).skip(1);
    assert(w =~= str_field(v.0) + (str_field(v.1) + Seq::<u8>::empty()));
    lemma_dec_str_field(v.0, str_field(v.1) + Seq::<u8>::empty());
    lemma_dec_str_field(v.1, Seq::<u8>::empty());
}

/// An encoded registration cut short anywhere before its end, operation
/// code aside, is refused as short: `deserialize` answers with an error.
pub proof fn lemma_register_account_cut(v: (Seq<char>, Seq<char>), k: int)
    requires
        encode_utf8_fits(v.0),
        encode_utf8_fits(v.1),
        0 <= k < register_account_wire(v).len() - 1,
    ensures
        dec_register_account(register_account_wire(v).skip(1).take(k)) is Short,
{
    let a = str_field(v.0);
    let b = str_field(v.1);
    let w = register_account_wire(v).skip(1);
    assert(w =~= a + b);
    if k < a.len() {
        assert(w.take(k) =~= a.take(k));
        lemma_dec_str_field_cut(v.0, k);
    } else {
        let j = k - a.len();
        assert(w.take(k) =~= a + b.take(j));
        lemma_dec_str_field(v.0, b.take(j));
        lemma_dec_str_field_cut(v.1, j);
    }
}

} // verus!
