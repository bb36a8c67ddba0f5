//! Enabling regions for an account, each with its own limit. Limits travel,
//! and are held here, as the bits of their IEEE 754 doubles.

use crate::bytes::{
    be_u64, dec_str, dec_u64, encode_utf8_fits, lemma_dec_str_field, lemma_dec_u64, push_str_field,
    push_u64_be, read_str_field, read_u64, str_field, then, AccountId, ByteCursor, Decoded,
};
use vstd::prelude::*;

verus! {

/// Operation code of an update of the account's regions.
pub const UPD_REGIONS: u8 = 9;

/// Regions to enable for an account, and the limit of each.
#[derive(Debug)]
pub struct UpdateRegionsMessage {
    account_id: AccountId,
    regions: Vec<String>,
    limits_bits: Vec<u64>,
}

/// A region and the bits of its limit.
pub type RegionLimit = (Seq<char>, u64);

impl View for UpdateRegionsMessage {
    /// `(account_id, regions, limit bits)`
    type V = (u64, Seq<Seq<char>>, Seq<u64>);

    closed spec fn view(&self) -> (u64, Seq<Seq<char>>, Seq<u64>) {
        (self.account_id, self.regions.deep_view(), self.limits_bits@)
    }
}

/// The regions paired with their limits.
pub open spec fn region_pairs(regions: Seq<Seq<char>>, limits: Seq<u64>) -> Seq<RegionLimit> {
    Seq::new(regions.len(), |i: int| (regions[i], limits[i]))
}

/// The wire form of the pairs: each region's name, then its limit.
pub open spec fn pairs_wire(l: Seq<RegionLimit>) -> Seq<u8>
    decreases l.len(),
{
    if l.len() == 0 {
        Seq::empty()
    } else {
        str_field(l[0].0) + be_u64(l[0].1) + pairs_wire(l.drop_first())
    }
}

/// `[UPD_REGIONS, account_id, count, (region_len, region, limit)*]`,
/// numbers in big endian.
pub open spec fn update_regions_wire(v: (u64, Seq<Seq<char>>, Seq<u64>)) -> Seq<u8> {
    seq![UPD_REGIONS] + be_u64(v.0) + be_u64(v.1.len() as u64) + pairs_wire(region_pairs(v.1, v.2))
}

/// Puts `prefix` in front of a decoded list of pairs.
pub open spec fn prepend_pairs(prefix: Seq<RegionLimit>, d: Decoded<Seq<RegionLimit>>) -> Decoded<
    Seq<RegionLimit>,
> {
    match d {
        Decoded::Value(l, rest) => Decoded::Value(prefix + l, rest),
        Decoded::Short => Decoded::Short,
        Decoded::Invalid => Decoded::Invalid,
    }
}

/// `n` pairs of a length-prefixed region name and a limit.
pub open spec fn dec_pairs(b: Seq<u8>, n: nat) -> Decoded<Seq<RegionLimit>>
    decreases n,
{
    if n == 0 {
        Decoded::Value(Seq::empty(), b)
    } else {
        match dec_str(b) {
            Decoded::Value(s, r1) => match dec_u64(r1) {
                Decoded::Value(l, r2) => prepend_pairs(seq![(s, l)], dec_pairs(r2, (n - 1) as nat)),
                Decoded::Short => Decoded::Short,
                Decoded::Invalid => Decoded::Invalid,
            },
            Decoded::Short => Decoded::Short,
            Decoded::Invalid => Decoded::Invalid,
        }
    }
}

/// Decoding of an update of regions whose operation code was already consumed.
pub open spec fn dec_update_regions(b: Seq<u8>) -> Decoded<(u64, Seq<RegionLimit>)> {
    then(
        dec_u64(b),
        |id: u64, r1: Seq<u8>|
            then(
                dec_u64(r1),
                |n: u64, r2: Seq<u8>|
                    then(dec_pairs(r2, n as nat), |l: Seq<RegionLimit>, r3: Seq<u8>| Decoded::Value((id, l), r3)),
            ),
    )
}

pub(crate) proof fn lemma_prepend_pairs(a: Seq<RegionLimit>, b: Seq<RegionLimit>, d: Decoded<Seq<RegionLimit>>)
    ensures
        prepend_pairs(a, prepend_pairs(b, d)) == prepend_pairs(a + b, d),
{
    match d {
        Decoded::Value(l, rest) => {
            assert(a + (b + l) =~= (a + b) + l);
        },
        _ => {},
    }
}

impl UpdateRegionsMessage {
    /// Regions and their limits, pairwise: the lists have the same length.
    pub fn new(account_id: AccountId, regions: Vec<String>, limits_bits: Vec<u64>) -> (m: Self)
        requires
            regions.len() == limits_bits.len(),
        ensures
            m@ == (account_id, regions.deep_view(), limits_bits@),
    {
        UpdateRegionsMessage { account_id, regions, limits_bits }
    }

    pub fn account_id(&self) -> (r: AccountId)
        ensures
            r == self@.0,
    {
        self.account_id
    }

    pub fn regions(&self) -> (r: &Vec<String>)
        ensures
            r.deep_view() == self@.1,
    {
        &self.regions
    }

    /// The bits of the limits, region by region.
    pub fn limits_bits(&self) -> (r: &Vec<u64>)
        ensures
            r@ == self@.2,
    {
        &self.limits_bits
    }

    /// Serializes as `[UPD_REGIONS, account_id, count, (region_len, region, limit)*]`.
    pub fn serialize(&self) -> (buf: Vec<u8>)
        requires
            self@.1.len() == self@.2.len(),
        ensures
            buf@ == update_regions_wire(self@),
    {
        let mut buf: Vec<u8> = Vec::new();
        buf.push(UPD_REGIONS);
        push_u64_be(&mut buf, self.account_id);
        push_u64_be(&mut buf, self.regions.len() as u64);
        let ghost head = buf@;
        let ghost pairs = region_pairs(self@.1, self@.2);
        let mut i: usize = 0;
        assert(pairs.skip(0) =~= pairs);
        while i < self.regions.len()
            invariant
                i <= self.regions.len(),
                self.regions.len() == self.limits_bits.len(),
                pairs == region_pairs(self@.1, self@.2),
                buf@ + pairs_wire(pairs.skip(i as int)) == head + pairs_wire(pairs),
            decreases self.regions.len() - i,
        {
            let ghost before = buf@;
            let ghost tail = pairs.skip(i as int);
            assert(tail.drop_first() =~= pairs.skip(i + 1));
            assert(tail[0] == (self.regions[i as int]@, self.limits_bits[i as int]));
            push_str_field(&mut buf, self.regions[i].as_str());
            push_u64_be(&mut buf, self.limits_bits[i]);
            assert(buf@ + pairs_wire(pairs.skip(i + 1)) =~= before + pairs_wire(tail));
            i = i + 1;
        }
        assert(pairs.skip(i as int) =~= Seq::<RegionLimit>::empty());
        assert(buf@ + Seq::<u8>::empty() =~= buf@);
        assert(buf@ =~= update_regions_wire(self@));
        buf
    }

    /// Decodes an update of regions whose operation code was already
    /// consumed. `None` when a region name is not UTF-8.
    pub fn deserialize_checked(bytes: &[u8]) -> (r: Option<Result<Self, String>>)
        ensures
            r is None <==> dec_update_regions(bytes@) is Invalid,
            dec_update_regions(bytes@) matches Decoded::Value(v, _) ==> (r matches Some(Ok(m))
                && m@.0 == v.0 && region_pairs(m@.1, m@.2) == v.1 && m@.1.len() == m@.2.len()),
            dec_update_regions(bytes@) is Short ==> (r matches Some(Err(_))),
    {
        let mut cursor = ByteCursor::new(vstd::slice::slice_to_vec(bytes));
        let account_id = match read_u64(&mut cursor) {
            Ok(n) => n,
            Err(e) => return Some(Err(e.to_string())),
        };
        let count = match read_u64(&mut cursor) {
            Ok(n) => n,
            Err(e) => return Some(Err(e.to_string())),
        };
        let ghost start = cursor.rest();
        let mut regions: Vec<String> = Vec::new();
        let mut limits_bits: Vec<u64> = Vec::new();
        let mut i: u64 = 0;
        while i < count
            invariant
                i <= count,
                regions.len() == limits_bits.len(),
                regions.len() == i,
                dec_pairs(start, count as nat) == prepend_pairs(
                    region_pairs(regions.deep_view(), limits_bits@),
                    dec_pairs(cursor.rest(), (count - i) as nat),
                ),
                dec_update_regions(bytes@) == then(
                    dec_pairs(start, count as nat),
                    |l: Seq<RegionLimit>, r3: Seq<u8>| Decoded::Value((account_id, l), r3),
                ),
            decreases count - i,
        {
            let ghost before = cursor.rest();
            let ghost k = (count - i) as nat;
            let ghost prev = region_pairs(regions.deep_view(), limits_bits@);
            let name = match read_str_field(&mut cursor) {
                Ok(Some(s)) => s,
                Ok(None) => return None,
                Err(e) => return Some(Err(e.to_string())),
            };
            let limit = match read_u64(&mut cursor) {
                Ok(n) => n,
                Err(e) => return Some(Err(e.to_string())),
            };
            proof {
                lemma_prepend_pairs(prev, seq![(name@, limit)], dec_pairs(cursor.rest(), (k - 1) as nat));
            }
            regions.push(name);
            limits_bits.push(limit);
            assert(region_pairs(regions.deep_view(), limits_bits@) =~= prev + seq![(name@, limit)]);
            i = i + 1;
        }
        assert(region_pairs(regions.deep_view(), limits_bits@) + Seq::<RegionLimit>::empty()
            =~= region_pairs(regions.deep_view(), limits_bits@));
        Some(Ok(UpdateRegionsMessage { account_id, regions, limits_bits }))
    }

    /// Decodes an update of regions whose operation code was already
    /// consumed. Region names must be UTF-8 wherever the input holds them.
    pub fn deserialize(bytes: &[u8]) -> (r: Result<Self, String>)
        requires
            !(dec_update_regions(bytes@) is Invalid),
        ensures
            dec_update_regions(bytes@) matches Decoded::Value(v, _) ==> (r matches Ok(m) && m@.0
                == v.0 && region_pairs(m@.1, m@.2) == v.1 && m@.1.len() == m@.2.len()),
            dec_update_regions(bytes@) is Short ==> r is Err,
    {
        match Self::deserialize_checked(bytes) {
            Some(r) => r,
            None => {
                proof {
                    assert(false);
                }
                Err("invalid text".to_string())
            },
        }
    }
}


/// Reading back the wire form of region pairs gives them and what follows.
#[verifier::rlimit(40)]
pub(crate) proof fn lemma_dec_pairs(l: Seq<RegionLimit>, rest: Seq<u8>)
    requires
        forall|i: int| 0 <= i < l.len() ==> #[trigger] encode_utf8_fits(l[i].0),
    ensures
        dec_pairs(pairs_wire(l) + rest, l.len()) == Decoded::Value(l, rest),
    decreases l.len(),
{
    if l.len() > 0 {
        let tail = l.drop_first();
        assert forall|i: int| 0 <= i < tail.len() implies #[trigger] encode_utf8_fits(tail[i].0) by {
            assert(tail[i] == l[i + 1]);
        }
        assert(encode_utf8_fits(l[0].0));
        lemma_dec_pairs(tail, rest);
        let all = pairs_wire(l) + rest;
        assert(all =~= str_field(l[0].0) + (be_u64(l[0].1) + (pairs_wire(tail) + rest)));
        let r1 = be_u64(l[0].1) + (pairs_wire(tail) + rest);
        let r2 = pairs_wire(tail) + rest;
        lemma_dec_str_field(l[0].0, r1);
        lemma_dec_u64(l[0].1, r2);
        assert(dec_str(all) == Decoded::Value(l[0].0, r1));
        assert(dec_u64(r1) == Decoded::Value(l[0].1, r2));
        assert(tail.len() == (l.len() - 1) as nat);
        assert(dec_pairs(all, l.len()) == prepend_pairs(
            seq![(l[0].0, l[0].1)],
            dec_pairs(r2, tail.len()),
        ));
        assert(dec_pairs(r2, tail.len()) == Decoded::Value(tail, rest));
        assert(seq![(l[0].0, l[0].1)] + tail =~= l);
    } else {
        assert(l =~= Seq::<RegionLimit>::empty());
        assert(pairs_wire(l) + rest =~= rest);
    }
}

/// Decoding the encoding of an update of regions, without its operation
/// code, gives back the account and its regions paired with their limits.
pub proof fn lemma_update_regions_roundtrip(v: (u64, Seq<Seq<char>>, Seq<u64>))
    requires
        v.1.len() == v.2.len(),
        v.1.len() <= u64::MAX,
        forall|i: int| 0 <= i < v.1.len() ==> #[trigger] encode_utf8_fits(v.1[i]),
    ensures
        dec_update_regions(update_regions_wire(v).skip(1)) == Decoded::Value(
            (v.0, region_pairs(v.1, v.2)),
            Seq::<u8>::empty(),
        ),
{
    let e = Seq::<u8>::empty();
    let p = region_pairs(v.1, v.2);
    let n = v.1.len() as u64;
    assert forall|i: int| 0 <= i < p.len() implies #[trigger] encode_utf8_fits(p[i].0) by {
        assert(p[i].0 == v.1[i]);
    }
    assert(update_regions_wire(v).skip(1) =~= be_u64(v.0) + (be_u64(n) + (pairs_wire(p) + e)));
    lemma_dec_u64(v.0, be_u64(n) + (pairs_wire(p) + e));
    lemma_dec_u64(n, pairs_wire(p) + e);
    lemma_dec_pairs(p, e);
}

} // verus!
