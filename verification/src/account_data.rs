//! Identifiers handed out by the central server to new accounts and cards.

use vstd::prelude::*;

verus! {

/// A card id: the counter in the upper 32 bits, the low 32 bits of `suffix`
/// in the lower ones.
pub open spec fn card_id_of(counter: u64, suffix: u64) -> u64 {
    ((counter % 0x1_0000_0000) * 0x1_0000_0000 + suffix % 0x1_0000_0000) as u64
}

/// Builds a card id from the value of the card counter and `suffix`.
pub fn generate_card_id(counter: u64, suffix: u64) -> (id: u64)
    ensures
        id == card_id_of(counter, suffix),
{
    let id = (counter << 32u64) | (suffix & 0xFFFF_FFFFu64);
    assert(id == ((counter % 0x1_0000_0000) * 0x1_0000_0000 + suffix % 0x1_0000_0000) as u64)
        by (bit_vector)
        requires
            id == (counter << 32u64) | (suffix & 0xFFFF_FFFFu64),
    ;
    id
}

/// Cards made with different counter values below 2^32 have different ids.
pub proof fn lemma_card_ids_distinct(c1: u64, c2: u64, s1: u64, s2: u64)
    requires
        c1 != c2,
        c1 < 0x1_0000_0000,
        c2 < 0x1_0000_0000,
    ensures
        card_id_of(c1, s1) != card_id_of(c2, s2),
{
    assert(card_id_of(c1, s1) / 0x1_0000_0000 == c1) by (nonlinear_arith)
        requires
            c1 < 0x1_0000_0000,
            card_id_of(c1, s1) == c1 * 0x1_0000_0000 + s1 % 0x1_0000_0000,
    ;
    assert(card_id_of(c2, s2) / 0x1_0000_0000 == c2) by (nonlinear_arith)
        requires
            c2 < 0x1_0000_0000,
            card_id_of(c2, s2) == c2 * 0x1_0000_0000 + s2 % 0x1_0000_0000,
    ;
}

/// The counters from which account and card ids are made; both start at 1
/// and wrap around.
pub struct IdCounters {
    next_account: u64,
    next_card: u64,
}

impl View for IdCounters {
    /// `(next account id, next card counter)`
    type V = (u64, u64);

    closed spec fn view(&self) -> (u64, u64) {
        (self.next_account, self.next_card)
    }
}

impl IdCounters {
    /// Counters at 1.
    pub fn new() -> (c: Self)
        ensures
            c@ == (1u64, 1u64),
    {
        IdCounters { next_account: 1, next_card: 1 }
    }

    /// A new account id: the next value of the account counter.
    pub fn generate_account_id(&mut self) -> (id: u64)
        ensures
            id == old(self)@.0,
            final(self)@ == (old(self)@.0.wrapping_add(1), old(self)@.1),
    {
        let id = self.next_account;
        self.next_account = self.next_account.wrapping_add(1);
        id
    }

    /// A new card id with `suffix` (see `generate_card_id`).
    pub fn next_card_id(&mut self, suffix: u64) -> (id: u64)
        ensures
            id == card_id_of(old(self)@.1, suffix),
            final(self)@ == (old(self)@.0, old(self)@.1.wrapping_add(1)),
    {
        let counter = self.next_card;
        self.next_card = self.next_card.wrapping_add(1);
        generate_card_id(counter, suffix)
    }
}

} // verus!
