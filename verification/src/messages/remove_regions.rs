//! Removal of enabled regions from an account.

use crate::bytes::{
    all_fit, be_u64, dec_str_list, dec_u64, lemma_dec_str_list, lemma_dec_u64, push_str_fields,
    push_u64_be, read_str_list, read_u64, str_fields, then, AccountId, ByteCursor, Decoded,
};
use vstd::prelude::*;

verus! {

/// Operation code of a region removal.
pub const UPD_REMOVE_REGIONS: u8 = 10;

/// Names of the regions to remove from an account.
#[derive(Debug)]
pub struct RemoveRegionsMessage {
    account_id: AccountId,
    regions: Vec<String>,
}

impl View for RemoveRegionsMessage {
    /// `(account_id, regions)`
    type V = (u64, Seq<Seq<char>>);

    closed spec fn view(&self) -> (u64, Seq<Seq<char>>) {
        (self.account_id, self.regions.deep_view())
    }
}

/// `[code, account_id, region_count, (region_len, region)*]`, numbers in big endian.
pub open spec fn remove_regions_wire(v: (u64, Seq<Seq<char>>)) -> Seq<u8> {
    seq![UPD_REMOVE_REGIONS] + be_u64(v.0) + be_u64(v.1.len() as u64) + str_fields(v.1)
}

/// Decoding of a removal whose operation code was already consumed.
pub open spec fn dec_remove_regions(b: Seq<u8>) -> Decoded<(u64, Seq<Seq<char>>)> {
    then(
        dec_u64(b),
        |id: u64, r1: Seq<u8>|
            then(
                dec_u64(r1),
                |n: u64, r2: Seq<u8>|
                    then(
                        dec_str_list(r2, n as nat),
                        |l: Seq<Seq<char>>, r3: Seq<u8>| Decoded::Value((id, l), r3),
                    ),
            ),
    )
}

impl RemoveRegionsMessage {
    pub fn new(account_id: AccountId, regions: Vec<String>) -> (m: Self)
        ensures
            m@ == (account_id, regions.deep_view()),
    {
        RemoveRegionsMessage { account_id, regions }
    }

    pub fn account_id(&self) -> (r: AccountId)
        ensures
            r == self@.0,
    {
        self.account_id
    }

    pub fn regions(&self) -> (r: &Vec<String>)
        ensures
            r.deep_view() == self@.1,
    {
        &self.regions
    }

    /// Serializes as `[code, account_id, region_count, (region_len, region)*]`.
    pub fn serialize(&self) -> (buf: Vec<u8>)
        ensures
            buf@ == remove_regions_wire(self@),
    {
        let mut buf: Vec<u8> = Vec::new();
        buf.push(UPD_REMOVE_REGIONS);
        push_u64_be(&mut buf, self.account_id);
        push_u64_be(&mut buf, self.regions.len() as u64);
        push_str_fields(&mut buf, &self.regions);
        assert(buf@ =~= remove_regions_wire(self@));
        buf
    }

    /// Decodes a removal (without its operation code). `None` when a region
    /// name is not UTF-8.
    pub fn deserialize_checked(bytes: &[u8]) -> (r: Option<Result<Self, String>>)
        ensures
            r is None <==> dec_remove_regions(bytes@) is Invalid,
            dec_remove_regions(bytes@) matches Decoded::Value(v, _) ==> (r matches Some(Ok(m))
                && m@ == v),
            dec_remove_regions(bytes@) is Short ==> (r matches Some(Err(_))),
    {
        let mut cursor = ByteCursor::new(vstd::slice::slice_to_vec(bytes));
        let account_id = match read_u64(&mut cursor) {
            Ok(n) => n,
            Err(e) => return Some(Err(e.to_string())),
        };
        let count = match read_u64(&mut cursor) {
            Ok(n) => n,
            Err(e) => return Some(Err(e.to_string())),
        };
        let regions = match read_str_list(&mut cursor, count) {
            Ok(Some(l)) => l,
            Ok(None) => return None,
            Err(e) => return Some(Err(e.to_string())),
        };
        Some(Ok(RemoveRegionsMessage { account_id, regions }))
    }

    /// Decodes a removal (without its operation code). Region names must be
    /// UTF-8 wherever the input holds them.
    pub fn deserialize(bytes: &[u8]) -> (r: Result<Self, String>)
        requires
            !(dec_remove_regions(bytes@) is Invalid),
        ensures
            dec_remove_regions(bytes@) matches Decoded::Value(v, _) ==> (r matches Ok(m) && m@
                == v),
            dec_remove_regions(bytes@) is Short ==> r is Err,
    {
        match Self::deserialize_checked(bytes) {
            Some(r) => r,
            None => {
                proof {
                    assert(false);
                }
                Err("invalid text".to_string())
            },
        }
    }
}

/// Decoding the encoding of a removal, without its operation code, gives it back.
pub proof fn lemma_remove_regions_roundtrip(v: (u64, Seq<Seq<char>>))
    requires
        all_fit(v.1),
        v.1.len() <= u64::MAX,
    ensures
        dec_remove_regions(remove_regions_wire(v).skip(1)) == Decoded::Value(
            v,
            Seq::<u8>::empty(),
        ),
{
    let e = Seq::<u8>::empty();
    let n = v.1.len() as u64;
    assert(remove_regions_wire(v).skip(1) =~= be_u64(v.0) + (be_u64(n) + (str_fields(v.1) + e)));
    lemma_dec_u64(v.0, be_u64(n) + (str_fields(v.1) + e));
    lemma_dec_u64(n, str_fields(v.1) + e);
    lemma_dec_str_list(v.1, e);
}

} // verus!
