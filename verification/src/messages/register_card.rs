//! Registration of a fuel card for an account. The card's limit is a
//! number with a fraction; it travels, and is held here, as the bits of its
//! IEEE 754 double (`f64::to_bits`).

use crate::bytes::{
    be_u64, dec_u64, lemma_dec_u64, push_u64_be, read_u64, then, AccountId, ByteCursor, Decoded,
};
use vstd::prelude::*;

verus! {

/// Operation code of a card registration.
pub const REG_CARD: u8 = 1;

/// An account asks for a new card with a limit.
#[derive(Debug, Clone)]
pub struct RegisterCardMessage {
    id: AccountId,
    limit_bits: u64,
}

impl View for RegisterCardMessage {
    /// `(account_id, limit bits)`
    type V = (u64, u64);

    closed spec fn view(&self) -> (u64, u64) {
        (self.id, self.limit_bits)
    }
}

/// `[REG_CARD, account_id, limit]`, numbers in big endian.
pub open spec fn register_card_wire(v: (u64, u64)) -> Seq<u8> {
    seq![REG_CARD] + be_u64(v.0) + be_u64(v.1)
}

/// Decoding of a card registration whose operation code was already consumed.
pub open spec fn dec_register_card(b: Seq<u8>) -> Decoded<(u64, u64)> {
    then(
        dec_u64(b),
        |id: u64, r1: Seq<u8>| then(dec_u64(r1), |l: u64, r2: Seq<u8>| Decoded::Value((id, l), r2)),
    )
}

impl RegisterCardMessage {
    /// A registration for account `id` with the limit whose bits are `limit_bits`.
    pub fn new(id: u64, limit_bits: u64) -> (m: Self)
        ensures
            m@ == (id, limit_bits),
    {
        RegisterCardMessage { id, limit_bits }
    }

    pub fn account_id(&self) -> (r: AccountId)
        ensures
            r == self@.0,
    {
        self.id
    }

    /// The bits of the limit.
    pub fn limit_bits(&self) -> (r: u64)
        ensures
            r == self@.1,
    {
        self.limit_bits
    }

    /// Serializes as `[REG_CARD, account_id, limit]`.
    pub fn serialize(&self) -> (buf: Vec<u8>)
        ensures
            buf@ == register_card_wire(self@),
    {
        let mut buf: Vec<u8> = Vec::new();
        buf.push(REG_CARD);
        push_u64_be(&mut buf, self.id);
        push_u64_be(&mut buf, self.limit_bits);
        assert(buf@ =~= register_card_wire(self@));
        buf
    }

    /// Decodes a registration whose operation code was already consumed.
    pub fn deserialize(bytes: &[u8]) -> (r: Result<Self, String>)
        ensures
            dec_register_card(bytes@) matches Decoded::Value(v, _) ==> (r matches Ok(m) && m@ == v),
            dec_register_card(bytes@) is Short ==> r is Err,
            !(dec_register_card(bytes@) is Invalid),
    {
        let mut cursor = ByteCursor::new(vstd::slice::slice_to_vec(bytes));
        let id = match read_u64(&mut cursor) {
            Ok(v) => v,
            Err(e) => return Err(e.to_string()),
        };
        let limit_bits = match read_u64(&mut cursor) {
            Ok(v) => v,
            Err(e) => return Err(e.to_string()),
        };
        Ok(RegisterCardMessage { id, limit_bits })
    }
}

/// Decoding the encoding of a card registration, without its operation
/// code, gives it back.
pub proof fn lemma_register_card_roundtrip(v: (u64, u64))
    ensures
        dec_register_card(register_card_wire(v).skip(1)) == Decoded::Value(v, Seq::<u8>::empty()),
{
    let e = Seq::<u8>::empty();
    assert(register_card_wire(v).skip(1) =~= be_u64(v.0) + (be_u64(v.1) + e));
    lemma_dec_u64(v.0, be_u64(v.1) + e);
    lemma_dec_u64(v.1, e);
}

} // verus!
