//! Fuel-card transactions as the central server stores and reports them:
//! their byte encoding, lists of them, and which fall in a period of time.
//! Amounts and fees are numbers with a fraction; they travel, and are held
//! here, as the bits of their IEEE 754 doubles (`f64::to_bits`).

use crate::bytes::{
    be_i64, be_u64, dec_i64, dec_u64, dec_u8, lemma_dec_i64, lemma_dec_u64, lemma_dec_u8,
    push_i64_be, push_u64_be, read_timestamp, read_u64, read_u8, then, ByteCursor, CardId,
    Decoded, TimeStamp,
};
use vstd::prelude::*;

verus! {

/// Whether `date` lies within `lower_bound..=upper_bound`.
pub fn transaction_belongs(lower_bound: TimeStamp, upper_bound: TimeStamp, date: TimeStamp) -> (r: bool)
    ensures
        r == (lower_bound <= date && date <= upper_bound),
{
    date >= lower_bound && date <= upper_bound
}

/// A sale paid with a fuel card.
#[derive(Debug, Clone)]
pub struct Transaction {
    date: TimeStamp,
    card_id: CardId,
    gas_station_id: u64,
    pump_number: u8,
    amount_bits: u64,
    fees_bits: u64,
}

/// `(date, card_id, gas_station_id, pump_number, amount bits, fees bits)`
pub type TransactionView = (i64, u64, u64, u8, u64, u64);

impl View for Transaction {
    type V = TransactionView;

    closed spec fn view(&self) -> TransactionView {
        (
            self.date,
            self.card_id,
            self.gas_station_id,
            self.pump_number,
            self.amount_bits,
            self.fees_bits,
        )
    }
}

impl DeepView for Transaction {
    type V = TransactionView;

    open spec fn deep_view(&self) -> TransactionView {
        self@
    }
}

/// The size of an encoded transaction.
pub const TRANSACTION_BYTES: usize = 41;

/// `[date, card_id, gas_station_id, pump_number, amount, fees]`, numbers in
/// big endian: 41 bytes.
pub open spec fn transaction_wire(v: TransactionView) -> Seq<u8> {
    be_i64(v.0) + be_u64(v.1) + be_u64(v.2) + seq![v.3] + be_u64(v.4) + be_u64(v.5)
}

/// Decoding of a transaction.
pub open spec fn dec_transaction(b: Seq<u8>) -> Decoded<TransactionView> {
    then(
        dec_i64(b),
        |date: i64, r1: Seq<u8>|
            then(
                dec_u64(r1),
                |card: u64, r2: Seq<u8>|
                    then(
                        dec_u64(r2),
                        |station: u64, r3: Seq<u8>|
                            then(
                                dec_u8(r3),
                                |pump: u8, r4: Seq<u8>|
                                    then(
                                        dec_u64(r4),
                                        |amount: u64, r5: Seq<u8>|
                                            then(
                                                dec_u64(r5),
                                                |fees: u64, r6: Seq<u8>|
                                                    Decoded::Value(
                                                        (date, card, station, pump, amount, fees),
                                                        r6,
                                                    ),
                                            ),
                                    ),
                            ),
                    ),
            ),
    )
}

impl Transaction {
    pub fn new(
        date: TimeStamp,
        card_id: CardId,
        gas_station_id: u64,
        pump_number: u8,
        amount_bits: u64,
        fees_bits: u64,
    ) -> (t: Self)
        ensures
            t@ == (date, card_id, gas_station_id, pump_number, amount_bits, fees_bits),
    {
        Transaction { date, card_id, gas_station_id, pump_number, amount_bits, fees_bits }
    }

    pub fn date(&self) -> (r: TimeStamp)
        ensures
            r == self@.0,
    {
        self.date
    }

    pub fn card_id(&self) -> (r: CardId)
        ensures
            r == self@.1,
    {
        self.card_id
    }

    pub fn gas_station_id(&self) -> (r: u64)
        ensures
            r == self@.2,
    {
        self.gas_station_id
    }

    pub fn pump_number(&self) -> (r: u8)
        ensures
            r == self@.3,
    {
        self.pump_number
    }

    /// The bits of the amount.
    pub fn amount_bits(&self) -> (r: u64)
        ensures
            r == self@.4,
    {
        self.amount_bits
    }

    /// The bits of the fees.
    pub fn fees_bits(&self) -> (r: u64)
        ensures
            r == self@.5,
    {
        self.fees_bits
    }

    /// A copy of the transaction.
    pub fn duplicate(&self) -> (r: Self)
        ensures
            r@ == self@,
    {
        Transaction {
            date: self.date,
            card_id: self.card_id,
            gas_station_id: self.gas_station_id,
            pump_number: self.pump_number,
            amount_bits: self.amount_bits,
            fees_bits: self.fees_bits,
        }
    }

    /// Serializes as `[date, card_id, gas_station_id, pump_number, amount, fees]`.
    pub fn serialize(&self) -> (buf: Vec<u8>)
        ensures
            buf@ == transaction_wire(self@),
    {
        let mut buf: Vec<u8> = Vec::new();
        push_i64_be(&mut buf, self.date);
        push_u64_be(&mut buf, self.card_id);
        push_u64_be(&mut buf, self.gas_station_id);
        buf.push(self.pump_number);
        push_u64_be(&mut buf, self.amount_bits);
        push_u64_be(&mut buf, self.fees_bits);
        assert(buf@ =~= transaction_wire(self@));
        buf
    }

    /// Decodes a transaction.
    pub fn deserialize(bytes: &[u8]) -> (r: Result<Self, String>)
        ensures
            dec_transaction(bytes@) matches Decoded::Value(v, _) ==> (r matches Ok(t) && t@ == v),
            dec_transaction(bytes@) is Short ==> r is Err,
            !(dec_transaction(bytes@) is Invalid),
    {
        let mut cursor = ByteCursor::new(vstd::slice::slice_to_vec(bytes));
        let date = match read_timestamp(&mut cursor) {
            Ok(v) => v,
            Err(e) => return Err(e.to_string()),
        };
        let card_id = match read_u64(&mut cursor) {
            Ok(v) => v,
            Err(e) => return Err(e.to_string()),
        };
        let gas_station_id = match read_u64(&mut cursor) {
            Ok(v) => v,
            Err(e) => return Err(e.to_string()),
        };
        let pump_number = match read_u8(&mut cursor) {
            Ok(v) => v,
            Err(e) => return Err(e.to_string()),
        };
        let amount_bits = match read_u64(&mut cursor) {
            Ok(v) => v,
            Err(e) => return Err(e.to_string()),
        };
        let fees_bits = match read_u64(&mut cursor) {
            Ok(v) => v,
            Err(e) => return Err(e.to_string()),
        };
        Ok(Transaction { date, card_id, gas_station_id, pump_number, amount_bits, fees_bits })
    }
}

/// Decoding the encoding of a transaction gives it back, and the bytes after it.
pub proof fn lemma_transaction_roundtrip(v: TransactionView, rest: Seq<u8>)
    ensures
        dec_transaction(transaction_wire(v) + rest) == Decoded::Value(v, rest),
        transaction_wire(v).len() == TRANSACTION_BYTES,
{
    assert(transaction_wire(v) + rest =~= be_i64(v.0) + (be_u64(v.1) + (be_u64(v.2) + (seq![v.3]
        + (be_u64(v.4) + (be_u64(v.5) + rest))))));
    lemma_dec_i64(v.0, be_u64(v.1) + (be_u64(v.2) + (seq![v.3] + (be_u64(v.4) + (be_u64(v.5)
        + rest)))));
    lemma_dec_u64(v.1, be_u64(v.2) + (seq![v.3] + (be_u64(v.4) + (be_u64(v.5) + rest))));
    lemma_dec_u64(v.2, seq![v.3] + (be_u64(v.4) + (be_u64(v.5) + rest)));
    lemma_dec_u8(v.3, be_u64(v.4) + (be_u64(v.5) + rest));
    lemma_dec_u64(v.4, be_u64(v.5) + rest);
    lemma_dec_u64(v.5, rest);
}

/// The encodings of the transactions, one after the other.
pub open spec fn transactions_body(l: Seq<TransactionView>) -> Seq<u8>
    decreases l.len(),
{
    if l.len() == 0 {
        Seq::empty()
    } else {
        transactions_body(l.drop_last()) + transaction_wire(l.last())
    }
}

/// A list of transactions: a 0 byte, their count, then the transactions.
pub open spec fn transactions_wire(l: Seq<TransactionView>) -> Seq<u8> {
    seq![0u8] + be_u64(l.len() as u64) + transactions_body(l)
}

/// The value of a decoding that succeeded.
pub open spec fn decoded_value<T>(d: Decoded<T>) -> T {
    match d {
        Decoded::Value(v, _) => v,
        _ => arbitrary(),
    }
}

/// The `i`-th transaction of a body of encoded transactions.
pub open spec fn body_transaction(body: Seq<u8>, i: int) -> TransactionView {
    decoded_value(dec_transaction(body.subrange(41 * i, 41 * i + 41)))
}

/// Serializes a list of transactions: a 0 byte, the count, then each one.
pub fn serialize_transactions(transactions: Vec<Transaction>) -> (buf: Vec<u8>)
    requires
        transactions.len() <= u64::MAX,
    ensures
        buf@ == transactions_wire(transactions.deep_view()),
{
    let ghost l = transactions.deep_view();
    let mut buf: Vec<u8> = Vec::new();
    buf.push(0);
    push_u64_be(&mut buf, transactions.len() as u64);
    let ghost head = buf@;
    let mut i: usize = 0;
    while i < transactions.len()
        invariant
            i <= transactions.len(),
            l == transactions.deep_view(),
            buf@ == head + transactions_body(l.take(i as int)),
        decreases transactions.len() - i,
    {
        let bytes = transactions[i].serialize();
        let ghost before = buf@;
        let mut more = bytes;
        buf.append(&mut more);
        assert(l.take(i + 1).drop_last() =~= l.take(i as int));
        assert(l.take(i + 1).last() == transactions[i as int]@);
        i = i + 1;
        assert(buf@ =~= head + transactions_body(l.take(i as int)));
    }
    assert(l.take(i as int) =~= l);
    assert(buf@ =~= transactions_wire(l));
    buf
}

/// Decodes a list of transactions after its leading 0 byte: the count, then
/// that many transactions of 41 bytes each, which the input must hold.
pub fn deserialize_transactions(bytes: &[u8]) -> (r: Result<Vec<Transaction>, String>)
    requires
        dec_u64(bytes@) matches Decoded::Value(n, rest) ==> rest.len() >= 41 * n,
    ensures
        dec_u64(bytes@) is Short ==> r is Err,
        dec_u64(bytes@) matches Decoded::Value(n, rest) ==> (r matches Ok(l) && l.len() == n
            && forall|i: int| 0 <= i < n ==> #[trigger] l[i]@ == body_transaction(rest, i)),
{
    let mut cursor = ByteCursor::new(vstd::slice::slice_to_vec(bytes));
    let n = match read_u64(&mut cursor) {
        Ok(v) => v,
        Err(e) => return Err(e.to_string()),
    };
    let ghost rest = bytes@.skip(8);
    let total = bytes.len();
    let mut transactions: Vec<Transaction> = Vec::new();
    let mut i: u64 = 0;
    while i < n
        invariant
            i <= n,
            total == bytes@.len(),
            bytes@.len() >= 8,
            rest == bytes@.skip(8),
            rest.len() >= 41 * n,
            transactions.len() == i,
            forall|k: int| 0 <= k < i ==> #[trigger] transactions[k]@ == body_transaction(rest, k),
        decreases n - i,
    {
        assert(41 * i + 41 <= 41 * n) by (nonlinear_arith)
            requires
                i < n,
        ;
        assert(8 + 41 * i + 41 <= total);
        let start: usize = 8 + 41 * (i as usize);
        let chunk = vstd::slice::slice_subrange(bytes, start, start + 41);
        assert(chunk@ =~= rest.subrange(41 * i, 41 * i + 41));
        proof {
            let c = chunk@;
            assert(c =~= c.take(8) + (c.subrange(8, 16) + (c.subrange(16, 24) + (seq![c[24]] + (
            c.subrange(25, 33) + (c.subrange(33, 41) + Seq::<u8>::empty()))))));
        }
        let t = match Transaction::deserialize(chunk) {
            Ok(t) => t,
            Err(e) => {
                proof {
                    assert(!(dec_transaction(chunk@) is Short));
                }
                return Err(e);
            },
        };
        transactions.push(t);
        i = i + 1;
    }
    Ok(transactions)
}


proof fn lemma_body_chunks(l: Seq<TransactionView>)
    ensures
        transactions_body(l).len() == 41 * l.len(),
        forall|i: int|
            0 <= i < l.len() ==> #[trigger] transactions_body(l).subrange(41 * i, 41 * i + 41)
                == transaction_wire(l[i]),
    decreases l.len(),
{
    if l.len() > 0 {
        let init = l.drop_last();
        lemma_body_chunks(init);
        lemma_transaction_roundtrip(l.last(), Seq::<u8>::empty());
        let b = transactions_body(l);
        let bi = transactions_body(init);
        assert forall|i: int| 0 <= i < l.len() implies #[trigger] b.subrange(41 * i, 41 * i + 41)
            == transaction_wire(l[i]) by {
            assert(41 * i + 41 <= 41 * l.len()) by (nonlinear_arith)
                requires
                    i < l.len(),
            ;
            if i < init.len() {
                assert(41 * i + 41 <= 41 * init.len()) by (nonlinear_arith)
                    requires
                        i < init.len(),
                ;
                assert(b.subrange(41 * i, 41 * i + 41) =~= bi.subrange(41 * i, 41 * i + 41));
            } else {
                assert(41 * i == 41 * init.len());
                assert(b.subrange(41 * i, 41 * i + 41) =~= transaction_wire(l.last()));
            }
        }
    }
}

/// Decoding an encoded list of transactions, after its 0 byte, gives the
/// count and, one by one, the transactions.
pub proof fn lemma_transactions_roundtrip(l: Seq<TransactionView>)
    requires
        l.len() <= u64::MAX,
    ensures
        dec_u64(transactions_wire(l).skip(1)) == Decoded::Value(
            l.len() as u64,
            transactions_body(l),
        ),
        transactions_body(l).len() >= 41 * l.len(),
        forall|i: int| 0 <= i < l.len() ==> #[trigger] body_transaction(transactions_body(l), i) == l[i],
{
    lemma_body_chunks(l);
    assert(transactions_wire(l).skip(1) =~= be_u64(l.len() as u64) + transactions_body(l));
    lemma_dec_u64(l.len() as u64, transactions_body(l));
    assert forall|i: int| 0 <= i < l.len() implies #[trigger] body_transaction(transactions_body(l), i)
        == l[i] by {
        lemma_transaction_roundtrip(l[i], Seq::<u8>::empty());
        assert(transaction_wire(l[i]) + Seq::<u8>::empty() =~= transaction_wire(l[i]));
    }
}

} // verus!
