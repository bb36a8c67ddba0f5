//! Changes of an account's name or limits, and of a card's limit. The new
//! limit travels, and is held here, as the bits of its IEEE 754 double.

use crate::bytes::{
    be_u64, dec_str, dec_u64, encode_utf8_fits, lemma_dec_str_field, lemma_dec_u64, push_str_field,
    push_u64_be, read_str_field, read_u64, str_field, then, AccountId, ByteCursor, CardId,
    Decoded,
};
use vstd::prelude::*;

verus! {

/// Operation code of a change of the account's limit.
pub const UPD_ACCOUNT_LIMIT: u8 = 2;

/// Operation code of a change of the account's display name.
pub const UPD_ACCOUNT_NAME: u8 = 3;

/// Operation code of a change of a card's limit.
pub const UPD_CARD: u8 = 4;

/// A change of an account: a non-empty name renames it; otherwise the limit
/// applies to the account (card 0) or to the card.
#[derive(Debug)]
pub struct UpdateDataMessage {
    id: AccountId,
    new_company_name: String,
    card_id: CardId,
    new_limit_bits: u64,
}

/// `(account_id, new name, card_id, limit bits)`
pub type UpdateDataView = (u64, Seq<char>, u64, u64);

impl View for UpdateDataMessage {
    type V = UpdateDataView;

    closed spec fn view(&self) -> UpdateDataView {
        (self.id, self.new_company_name@, self.card_id, self.new_limit_bits)
    }
}

/// The operation a change stands for: a rename when the name is not
/// empty, else a change of the account's limit (card 0) or of a card's.
pub open spec fn update_code(v: UpdateDataView) -> u8 {
    if v.1.len() > 0 {
        UPD_ACCOUNT_NAME
    } else if v.2 == 0 {
        UPD_ACCOUNT_LIMIT
    } else {
        UPD_CARD
    }
}

/// `[code, account_id, name_len, name, card_id, limit]`, numbers in big endian.
pub open spec fn update_data_wire(v: UpdateDataView) -> Seq<u8> {
    seq![update_code(v)] + be_u64(v.0) + str_field(v.1) + be_u64(v.2) + be_u64(v.3)
}

/// Decoding of a change whose operation code was already consumed.
pub open spec fn dec_update_data(b: Seq<u8>) -> Decoded<UpdateDataView> {
    then(
        dec_u64(b),
        |id: u64, r1: Seq<u8>|
            then(
                dec_str(r1),
                |name: Seq<char>, r2: Seq<u8>|
                    then(
                        dec_u64(r2),
                        |card: u64, r3: Seq<u8>|
                            then(
                                dec_u64(r3),
                                |l: u64, r4: Seq<u8>| Decoded::Value((id, name, card, l), r4),
                            ),
                    ),
            ),
    )
}

impl UpdateDataMessage {
    pub fn new(id: AccountId, new_company_name: String, card_id: CardId, new_limit_bits: u64) -> (m:
        Self)
        ensures
            m@ == (id, new_company_name@, card_id, new_limit_bits),
    {
        UpdateDataMessage { id, new_company_name, card_id, new_limit_bits }
    }

    pub fn new_name(&self) -> (r: String)
        ensures
            r@ == self@.1,
    {
        self.new_company_name.clone()
    }

    pub fn account_id(&self) -> (r: AccountId)
        ensures
            r == self@.0,
    {
        self.id
    }

    pub fn card_id(&self) -> (r: CardId)
        ensures
            r == self@.2,
    {
        self.card_id
    }

    /// The bits of the new limit.
    pub fn limit_bits(&self) -> (r: u64)
        ensures
            r == self@.3,
    {
        self.new_limit_bits
    }

    /// Serializes as `[code, account_id, name_len, name, card_id, limit]`.
    pub fn serialize(&self) -> (buf: Vec<u8>)
        ensures
            buf@ == update_data_wire(self@),
    {
        let code = if !self.new_company_name.as_str().is_empty() {
            UPD_ACCOUNT_NAME
        } else if self.card_id == 0 {
            UPD_ACCOUNT_LIMIT
        } else {
            UPD_CARD
        };
        let mut buf: Vec<u8> = Vec::new();
        buf.push(code);
        push_u64_be(&mut buf, self.id);
        push_str_field(&mut buf, self.new_company_name.as_str());
        push_u64_be(&mut buf, self.card_id);
        push_u64_be(&mut buf, self.new_limit_bits);
        assert(buf@ =~= update_data_wire(self@));
        buf
    }

    /// Decodes a change whose operation code was already consumed. `None`
    /// when the name is not UTF-8.
    pub fn deserialize_checked(bytes: &[u8]) -> (r: Option<Result<Self, String>>)
        ensures
            r is None <==> dec_update_data(bytes@) is Invalid,
            dec_update_data(bytes@) matches Decoded::Value(v, _) ==> (r matches Some(Ok(m)) && m@
                == v),
            dec_update_data(bytes@) is Short ==> (r matches Some(Err(_))),
    {
        let mut cursor = ByteCursor::new(vstd::slice::slice_to_vec(bytes));
        let id = match read_u64(&mut cursor) {
            Ok(v) => v,
            Err(e) => return Some(Err(e.to_string())),
        };
        let new_company_name = match read_str_field(&mut cursor) {
            Ok(Some(s)) => s,
            Ok(None) => return None,
            Err(e) => return Some(Err(e.to_string())),
        };
        let card_id = match read_u64(&mut cursor) {
            Ok(v) => v,
            Err(e) => return Some(Err(e.to_string())),
        };
        let new_limit_bits = match read_u64(&mut cursor) {
            Ok(v) => v,
            Err(e) => return Some(Err(e.to_string())),
        };
        Some(Ok(UpdateDataMessage { id, new_company_name, card_id, new_limit_bits }))
    }

    /// Decodes a change whose operation code was already consumed. The name
    /// must be UTF-8 wherever the input holds it.
    pub fn deserialize(bytes: &[u8]) -> (r: Result<Self, String>)
        requires
            !(dec_update_data(bytes@) is Invalid),
        ensures
            dec_update_data(bytes@) matches Decoded::Value(v, _) ==> (r matches Ok(m) && m@ == v),
            dec_update_data(bytes@) is Short ==> r is Err,
    {
        match Self::deserialize_checked(bytes) {
            Some(r) => r,
            None => {
                proof {
                    assert(false);
                }
                Err("invalid text".to_string())
            },
        }
    }
}

/// Decoding the encoding of a change, without its operation code, gives it back.
pub proof fn lemma_update_data_roundtrip(v: UpdateDataView)
    requires
        encode_utf8_fits(v.1),
    ensures
        dec_update_data(update_data_wire(v).skip(1)) == Decoded::Value(v, Seq::<u8>::empty()),
{
    let e = Seq::<u8>::empty();
    assert(update_data_wire(v).skip(1) =~= be_u64(v.0) + (str_field(v.1) + (be_u64(v.2) + (
    be_u64(v.3) + e))));
    lemma_dec_u64(v.0, str_field(v.1) + (be_u64(v.2) + (be_u64(v.3) + e)));
    lemma_dec_str_field(v.1, be_u64(v.2) + (be_u64(v.3) + e));
    lemma_dec_u64(v.2, be_u64(v.3) + e);
    lemma_dec_u64(v.3, e);
}

} // verus!
