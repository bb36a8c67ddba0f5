//! The details of an account that answer a query of type 1: its username
//! and display name, its regions with their limits, what the account spent
//! in all, and its cards with their limits and what each spent. Amounts
//! travel, and are held here, as the bits of their IEEE 754 doubles.

use crate::bytes::{
    be_u64, dec_str, dec_u64, encode_utf8_fits, lemma_dec_str_field, lemma_dec_u64, push_str_field,
    push_u64_be, read_str_field, read_u64, str_field, then, ByteCursor, Decoded,
};
use crate::messages::update_regions::{
    dec_pairs, lemma_dec_pairs, lemma_prepend_pairs, pairs_wire, prepend_pairs, RegionLimit,
};
use vstd::prelude::*;

verus! {

/// The first byte of the details of an account (a query of type 1).
pub const DETAILS_REPLY: u8 = 1;

/// A card: its id, the bits of its limit, and the bits of what it spent.
pub type CardLine = (u64, u64, u64);

/// The details of an account.
#[derive(Debug)]
pub struct AccountDetails {
    pub username: String,
    pub display_name: String,
    /// Each region with the bits of its limit.
    pub regions: Vec<(String, u64)>,
    /// The bits of what the account spent in all.
    pub total_spent_bits: u64,
    /// Each card with the bits of its limit and of what it spent.
    pub cards: Vec<CardLine>,
}

/// `(username, display name, regions, total spent, cards)`
pub type DetailsView = (Seq<char>, Seq<char>, Seq<RegionLimit>, u64, Seq<CardLine>);

impl View for AccountDetails {
    type V = DetailsView;

    open spec fn view(&self) -> DetailsView {
        (
            self.username@,
            self.display_name@,
            self.regions@.map_values(|e: (String, u64)| (e.0@, e.1)),
            self.total_spent_bits,
            self.cards@,
        )
    }
}

/// The wire form of the cards: each card's id, limit and spending.
pub open spec fn cards_wire(l: Seq<CardLine>) -> Seq<u8>
    decreases l.len(),
{
    if l.len() == 0 {
        Seq::empty()
    } else {
        be_u64(l[0].0) + be_u64(l[0].1) + be_u64(l[0].2) + cards_wire(l.drop_first())
    }
}

/// `[1, username, display_name, region count, (region, limit)*, total spent,
/// card count, (card, limit, spent)*]`, strings length-prefixed, numbers in
/// big endian.
pub open spec fn details_wire(v: DetailsView) -> Seq<u8> {
    seq![DETAILS_REPLY] + str_field(v.0) + str_field(v.1) + be_u64(v.2.len() as u64) + pairs_wire(
        v.2,
    ) + be_u64(v.3) + be_u64(v.4.len() as u64) + cards_wire(v.4)
}

/// Puts `prefix` in front of a decoded list of cards.
pub open spec fn prepend_cards(prefix: Seq<CardLine>, d: Decoded<Seq<CardLine>>) -> Decoded<
    Seq<CardLine>,
> {
    match d {
        Decoded::Value(l, rest) => Decoded::Value(prefix + l, rest),
        Decoded::Short => Decoded::Short,
        Decoded::Invalid => Decoded::Invalid,
    }
}

/// `n` cards of three big-endian numbers each.
pub open spec fn dec_cards(b: Seq<u8>, n: nat) -> Decoded<Seq<CardLine>>
    decreases n,
{
    if n == 0 {
        Decoded::Value(Seq::empty(), b)
    } else {
        match dec_u64(b) {
            Decoded::Value(id, r1) => match dec_u64(r1) {
                Decoded::Value(limit, r2) => match dec_u64(r2) {
                    Decoded::Value(spent, r3) => prepend_cards(
                        seq![(id, limit, spent)],
                        dec_cards(r3, (n - 1) as nat),
                    ),
                    _ => Decoded::Short,
                },
                _ => Decoded::Short,
            },
            _ => Decoded::Short,
        }
    }
}

/// Decoding of what follows the regions: the total spent and the cards.
pub open spec fn dec_details_tail(
    user: Seq<char>,
    name: Seq<char>,
    regions: Seq<RegionLimit>,
    b: Seq<u8>,
) -> Decoded<DetailsView> {
    then(
        dec_u64(b),
        |total: u64, r5: Seq<u8>|
            then(
                dec_u64(r5),
                |nc: u64, r6: Seq<u8>|
                    then(
                        dec_cards(r6, nc as nat),
                        |cards: Seq<CardLine>, r7: Seq<u8>|
                            Decoded::Value((user, name, regions, total, cards), r7),
                    ),
            ),
    )
}

/// Decoding of the details of an account whose first byte was already
/// consumed.
pub open spec fn dec_account_details(b: Seq<u8>) -> Decoded<DetailsView> {
    then(
        dec_str(b),
        |user: Seq<char>, r1: Seq<u8>|
            then(
                dec_str(r1),
                |name: Seq<char>, r2: Seq<u8>|
                    then(
                        dec_u64(r2),
                        |nr: u64, r3: Seq<u8>|
                            then(
                                dec_pairs(r3, nr as nat),
                                |regions: Seq<RegionLimit>, r4: Seq<u8>|
                                    dec_details_tail(user, name, regions, r4),
                            ),
                    ),
            ),
    )
}

proof fn lemma_prepend_cards(a: Seq<CardLine>, b: Seq<CardLine>, d: Decoded<Seq<CardLine>>)
    ensures
        prepend_cards(a, prepend_cards(b, d)) == prepend_cards(a + b, d),
{
    match d {
        Decoded::Value(l, rest) => {
            assert(a + (b + l) =~= (a + b) + l);
        },
        _ => {},
    }
}

impl AccountDetails {
    /// Serializes as `[1, username, display_name, region count, (region,
    /// limit)*, total spent, card count, (card, limit, spent)*]`.
    pub fn serialize(&self) -> (buf: Vec<u8>)
        ensures
            buf@ == details_wire(self@),
    {
        let ghost v = self@;
        let mut buf: Vec<u8> = Vec::new();
        buf.push(DETAILS_REPLY);
        push_str_field(&mut buf, self.username.as_str());
        push_str_field(&mut buf, self.display_name.as_str());
        push_u64_be(&mut buf, self.regions.len() as u64);
        let ghost head = buf@;
        let ghost pairs = v.2;
        let mut i: usize = 0;
        assert(pairs.skip(0) =~= pairs);
        while i < self.regions.len()
            invariant
                i <= self.regions.len(),
                v == self@,
                pairs == v.2,
                buf@ + pairs_wire(pairs.skip(i as int)) == head + pairs_wire(pairs),
            decreases self.regions.len() - i,
        {
            let ghost before = buf@;
            let ghost tail = pairs.skip(i as int);
            assert(tail.drop_first() =~= pairs.skip(i + 1));
            assert(tail[0] == (self.regions[i as int].0@, self.regions[i as int].1));
            push_str_field(&mut buf, self.regions[i].0.as_str());
            push_u64_be(&mut buf, self.regions[i].1);
            assert(buf@ + pairs_wire(pairs.skip(i + 1)) =~= before + pairs_wire(tail));
            i = i + 1;
        }
        assert(pairs.skip(i as int) =~= Seq::<RegionLimit>::empty());
        assert(buf@ =~= head + pairs_wire(pairs));
        push_u64_be(&mut buf, self.total_spent_bits);
        push_u64_be(&mut buf, self.cards.len() as u64);
        let ghost head2 = buf@;
        let ghost cards = v.4;
        let mut k: usize = 0;
        assert(cards.skip(0) =~= cards);
        while k < self.cards.len()
            invariant
                k <= self.cards.len(),
                v == self@,
                cards == v.4,
                buf@ + cards_wire(cards.skip(k as int)) == head2 + cards_wire(cards),
            decreases self.cards.len() - k,
        {
            let ghost before = buf@;
            let ghost tail = cards.skip(k as int);
            assert(tail.drop_first() =~= cards.skip(k + 1));
            assert(tail[0] == self.cards[k as int]);
            let c = self.cards[k];
            push_u64_be(&mut buf, c.0);
            push_u64_be(&mut buf, c.1);
            push_u64_be(&mut buf, c.2);
            assert(buf@ + cards_wire(cards.skip(k + 1)) =~= before + cards_wire(tail));
            k = k + 1;
        }
        assert(cards.skip(k as int) =~= Seq::<CardLine>::empty());
        assert(buf@ =~= details_wire(v));
        buf
    }

    /// Decodes the details of an account whose first byte was already
    /// consumed. `None` when a name is not UTF-8.
    pub fn deserialize_checked(bytes: &[u8]) -> (r: Option<Result<Self, String>>)
        ensures
            r is None <==> dec_account_details(bytes@) is Invalid,
            dec_account_details(bytes@) matches Decoded::Value(v, _) ==> (r matches Some(Ok(d))
                && d@ == v),
            dec_account_details(bytes@) is Short ==> (r matches Some(Err(_))),
    {
        let mut cursor = ByteCursor::new(vstd::slice::slice_to_vec(bytes));
        let username = match read_str_field(&mut cursor) {
            Ok(Some(s)) => s,
            Ok(None) => return None,
            Err(e) => return Some(Err(e.to_string())),
        };
        let display_name = match read_str_field(&mut cursor) {
            Ok(Some(s)) => s,
            Ok(None) => return None,
            Err(e) => return Some(Err(e.to_string())),
        };
        let nr = match read_u64(&mut cursor) {
            Ok(n) => n,
            Err(e) => return Some(Err(e.to_string())),
        };
        let ghost start = cursor.rest();
        let mut regions: Vec<(String, u64)> = Vec::new();
        let mut i: u64 = 0;
        assert(regions@.map_values(|e: (String, u64)| (e.0@, e.1)) =~= Seq::<RegionLimit>::empty());
        while i < nr
            invariant
                i <= nr,
                regions@.len() == i,
                dec_pairs(start, nr as nat) == prepend_pairs(
                    regions@.map_values(|e: (String, u64)| (e.0@, e.1)),
                    dec_pairs(cursor.rest(), (nr - i) as nat),
                ),
                dec_account_details(bytes@) == then(
                    dec_pairs(start, nr as nat),
                    |l: Seq<RegionLimit>, r4: Seq<u8>|
                        dec_details_tail(username@, display_name@, l, r4),
                ),
            decreases nr - i,
        {
            let ghost k = (nr - i) as nat;
            let ghost prev = regions@.map_values(|e: (String, u64)| (e.0@, e.1));
            let name = match read_str_field(&mut cursor) {
                Ok(Some(s)) => s,
                Ok(None) => return None,
                Err(e) => return Some(Err(e.to_string())),
            };
            let limit = match read_u64(&mut cursor) {
                Ok(n) => n,
                Err(e) => return Some(Err(e.to_string())),
            };
            proof {
                lemma_prepend_pairs(prev, seq![(name@, limit)], dec_pairs(cursor.rest(), (k - 1) as nat));
            }
            regions.push((name, limit));
            assert(regions@.map_values(|e: (String, u64)| (e.0@, e.1)) =~= prev + seq![(name@, limit)]);
            i = i + 1;
        }
        let ghost regions_view = regions@.map_values(|e: (String, u64)| (e.0@, e.1));
        assert(regions_view + Seq::<RegionLimit>::empty() =~= regions_view);
        let total_spent_bits = match read_u64(&mut cursor) {
            Ok(n) => n,
            Err(e) => return Some(Err(e.to_string())),
        };
        let nc = match read_u64(&mut cursor) {
            Ok(n) => n,
            Err(e) => return Some(Err(e.to_string())),
        };
        let ghost start2 = cursor.rest();
        let mut cards: Vec<CardLine> = Vec::new();
        let mut j: u64 = 0;
        assert(cards@ =~= Seq::<CardLine>::empty());
        while j < nc
            invariant
                j <= nc,
                cards@.len() == j,
                dec_cards(start2, nc as nat) == prepend_cards(
                    cards@,
                    dec_cards(cursor.rest(), (nc - j) as nat),
                ),
                dec_account_details(bytes@) == then(
                    dec_cards(start2, nc as nat),
                    |l: Seq<CardLine>, r7: Seq<u8>|
                        Decoded::Value(
                            (username@, display_name@, regions_view, total_spent_bits, l),
                            r7,
                        ),
                ),
            decreases nc - j,
        {
            let ghost k = (nc - j) as nat;
            let ghost prev = cards@;
            let id = match read_u64(&mut cursor) {
                Ok(n) => n,
                Err(e) => return Some(Err(e.to_string())),
            };
            let limit = match read_u64(&mut cursor) {
                Ok(n) => n,
                Err(e) => return Some(Err(e.to_string())),
            };
            let spent = match read_u64(&mut cursor) {
                Ok(n) => n,
                Err(e) => return Some(Err(e.to_string())),
            };
            proof {
                lemma_prepend_cards(prev, seq![(id, limit, spent)], dec_cards(cursor.rest(), (k - 1) as nat));
            }
            cards.push((id, limit, spent));
            assert(cards@ =~= prev + seq![(id, limit, spent)]);
            j = j + 1;
        }
        assert(cards@ + Seq::<CardLine>::empty() =~= cards@);
        Some(Ok(AccountDetails { username, display_name, regions, total_spent_bits, cards }))
    }
}

/// Reading back the wire form of cards gives them and what follows.
#[verifier::rlimit(40)]
proof fn lemma_dec_cards(l: Seq<CardLine>, rest: Seq<u8>)
    ensures
        dec_cards(cards_wire(l) + rest, l.len()) == Decoded::Value(l, rest),
    decreases l.len(),
{
    if l.len() > 0 {
        let tail = l.drop_first();
        lemma_dec_cards(tail, rest);
        let all = cards_wire(l) + rest;
        let r3 = cards_wire(tail) + rest;
        let r2 = be_u64(l[0].2) + r3;
        let r1 = be_u64(l[0].1) + r2;
        assert(all =~= be_u64(l[0].0) + r1);
        lemma_dec_u64(l[0].0, r1);
        lemma_dec_u64(l[0].1, r2);
        lemma_dec_u64(l[0].2, r3);
        assert(dec_u64(all) == Decoded::Value(l[0].0, r1));
        assert(dec_u64(r1) == Decoded::Value(l[0].1, r2));
        assert(dec_u64(r2) == Decoded::Value(l[0].2, r3));
        assert(tail.len() == (l.len() - 1) as nat);
        assert(dec_cards(r3, tail.len()) == Decoded::Value(tail, rest));
        assert(dec_cards(all, l.len()) == prepend_cards(
            seq![(l[0].0, l[0].1, l[0].2)],
            dec_cards(r3, tail.len()),
        ));
        assert(seq![(l[0].0, l[0].1, l[0].2)] + tail =~= l);
    } else {
        assert(l =~= Seq::<CardLine>::empty());
        assert(cards_wire(l) + rest =~= rest);
    }
}

/// Decoding the encoding of an account's details, without its first byte,
/// gives them back.
pub proof fn lemma_account_details_roundtrip(v: DetailsView)
    requires
        encode_utf8_fits(v.0),
        encode_utf8_fits(v.1),
        v.2.len() <= u64::MAX,
        v.4.len() <= u64::MAX,
        forall|i: int| 0 <= i < v.2.len() ==> #[trigger] encode_utf8_fits(v.2[i].0),
    ensures
        dec_account_details(details_wire(v).skip(1)) == Decoded::Value(v, Seq::<u8>::empty()),
{
    let e = Seq::<u8>::empty();
    let nr = v.2.len() as u64;
    let nc = v.4.len() as u64;
    let r7 = cards_wire(v.4) + e;
    let r6 = r7;
    let r5 = be_u64(nc) + r6;
    let r4 = be_u64(v.3) + r5;
    let r3 = pairs_wire(v.2) + r4;
    let r2 = be_u64(nr) + r3;
    let r1 = str_field(v.1) + r2;
    assert(details_wire(v).skip(1) =~= str_field(v.0) + r1);
    lemma_dec_str_field(v.0, r1);
    lemma_dec_str_field(v.1, r2);
    lemma_dec_u64(nr, r3);
    lemma_dec_pairs(v.2, r4);
    lemma_dec_u64(v.3, r5);
    lemma_dec_u64(nc, r6);
    lemma_dec_cards(v.4, e);
}

} // verus!
