//! The record of a sale reported to the administrator. Quantities and
//! amounts are numbers with a fraction; they travel, and are held here, as
//! the bits of their IEEE 754 doubles.

use crate::bytes::{
    be_i64, be_u64, dec_i64, dec_u64, dec_u8, lemma_dec_i64, lemma_dec_u64, lemma_dec_u8,
    push_i64_be, push_u64_be, read_timestamp, read_u64, read_u8, then, ByteCursor, CardId,
    Decoded, GenId, PumpId, TimeStamp,
};
use vstd::prelude::*;

verus! {

/// The size of an encoded record.
pub const DATA_BYTES_SIZE: usize = 49;

/// A sale: when, where (station and pump), with which card, how much fuel,
/// its net amount and its fees.
#[derive(Debug)]
pub struct Data {
    date: TimeStamp,
    gas_station_id: GenId,
    pump_id: PumpId,
    card_id: CardId,
    gas_amount_bits: u64,
    total_bits: u64,
    fees_bits: u64,
}

/// `(date, gas_station_id, pump_id, card_id, gas amount bits, total bits, fees bits)`
pub type DataView = (i64, u64, u8, u64, u64, u64, u64);

impl View for Data {
    type V = DataView;

    closed spec fn view(&self) -> DataView {
        (
            self.date,
            self.gas_station_id,
            self.pump_id,
            self.card_id,
            self.gas_amount_bits,
            self.total_bits,
            self.fees_bits,
        )
    }
}

/// `[date, gas_station_id, pump_id, card_id, gas_amount, total, fees]`,
/// numbers in big endian: 49 bytes.
pub open spec fn data_wire(v: DataView) -> Seq<u8> {
    be_i64(v.0) + be_u64(v.1) + seq![v.2] + be_u64(v.3) + be_u64(v.4) + be_u64(v.5) + be_u64(v.6)
}

/// Decoding of a record.
pub open spec fn dec_data(b: Seq<u8>) -> Decoded<DataView> {
    then(
        dec_i64(b),
        |date: i64, r1: Seq<u8>|
            then(
                dec_u64(r1),
                |station: u64, r2: Seq<u8>|
                    then(
                        dec_u8(r2),
                        |pump: u8, r3: Seq<u8>|
                            then(
                                dec_u64(r3),
                                |card: u64, r4: Seq<u8>|
                                    then(
                                        dec_u64(r4),
                                        |gas: u64, r5: Seq<u8>|
                                            then(
                                                dec_u64(r5),
                                                |total: u64, r6: Seq<u8>|
                                                    then(
                                                        dec_u64(r6),
                                                        |fees: u64, r7: Seq<u8>|
                                                            Decoded::Value(
                                                                (date, station, pump, card, gas, total, fees),
                                                                r7,
                                                            ),
                                                    ),
                                            ),
                                    ),
                            ),
                    ),
            ),
    )
}

impl Data {
    pub fn new(
        date: TimeStamp,
        gas_station_id: GenId,
        pump_id: PumpId,
        card_id: CardId,
        gas_amount_bits: u64,
        total_bits: u64,
        fees_bits: u64,
    ) -> (d: Self)
        ensures
            d@ == (date, gas_station_id, pump_id, card_id, gas_amount_bits, total_bits, fees_bits),
    {
        Data { date, gas_station_id, pump_id, card_id, gas_amount_bits, total_bits, fees_bits }
    }

    /// The record's fields: `(date, gas_station_id, pump_id, card_id, gas
    /// amount bits, total bits, fees bits)`.
    pub fn fields(&self) -> (r: (TimeStamp, GenId, PumpId, CardId, u64, u64, u64))
        ensures
            r == self@,
    {
        (
            self.date,
            self.gas_station_id,
            self.pump_id,
            self.card_id,
            self.gas_amount_bits,
            self.total_bits,
            self.fees_bits,
        )
    }

    /// Serializes as `[date, gas_station_id, pump_id, card_id, gas_amount, total, fees]`.
    pub fn serialize(&self) -> (buf: Vec<u8>)
        ensures
            buf@ == data_wire(self@),
    {
        let mut buf: Vec<u8> = Vec::new();
        push_i64_be(&mut buf, self.date);
        push_u64_be(&mut buf, self.gas_station_id);
        buf.push(self.pump_id);
        push_u64_be(&mut buf, self.card_id);
        push_u64_be(&mut buf, self.gas_amount_bits);
        push_u64_be(&mut buf, self.total_bits);
        push_u64_be(&mut buf, self.fees_bits);
        assert(buf@ =~= data_wire(self@));
        buf
    }

    /// Decodes a record.
    pub fn deserialize(bytes: &[u8]) -> (r: Result<Self, String>)
        ensures
            dec_data(bytes@) matches Decoded::Value(v, _) ==> (r matches Ok(d) && d@ == v),
            dec_data(bytes@) is Short ==> r is Err,
            !(dec_data(bytes@) is Invalid),
    {
        let mut cursor = ByteCursor::new(vstd::slice::slice_to_vec(bytes));
        let date = match read_timestamp(&mut cursor) {
            Ok(v) => v,
            Err(e) => return Err(e.to_string()),
        };
        let gas_station_id = match read_u64(&mut cursor) {
            Ok(v) => v,
            Err(e) => return Err(e.to_string()),
        };
        let pump_id = match read_u8(&mut cursor) {
            Ok(v) => v,
            Err(e) => return Err(e.to_string()),
        };
        let card_id = match read_u64(&mut cursor) {
            Ok(v) => v,
            Err(e) => return Err(e.to_string()),
        };
        let gas_amount_bits = match read_u64(&mut cursor) {
            Ok(v) => v,
            Err(e) => return Err(e.to_string()),
        };
        let total_bits = match read_u64(&mut cursor) {
            Ok(v) => v,
            Err(e) => return Err(e.to_string()),
        };
        let fees_bits = match read_u64(&mut cursor) {
            Ok(v) => v,
            Err(e) => return Err(e.to_string()),
        };
        Ok(Data { date, gas_station_id, pump_id, card_id, gas_amount_bits, total_bits, fees_bits })
    }
}

/// Decoding the encoding of a record gives it back; the encoding has 49 bytes.
pub proof fn lemma_data_roundtrip(v: DataView)
    ensures
        dec_data(data_wire(v)) == Decoded::Value(v, Seq::<u8>::empty()),
        data_wire(v).len() == DATA_BYTES_SIZE,
{
    let e = Seq::<u8>::empty();
    assert(data_wire(v) =~= be_i64(v.0) + (be_u64(v.1) + (seq![v.2] + (be_u64(v.3) + (be_u64(v.4)
        + (be_u64(v.5) + (be_u64(v.6) + e)))))));
    lemma_dec_i64(v.0, be_u64(v.1) + (seq![v.2] + (be_u64(v.3) + (be_u64(v.4) + (be_u64(v.5) + (
    be_u64(v.6) + e))))));
    lemma_dec_u64(v.1, seq![v.2] + (be_u64(v.3) + (be_u64(v.4) + (be_u64(v.5) + (be_u64(v.6) + e)))));
    lemma_dec_u8(v.2, be_u64(v.3) + (be_u64(v.4) + (be_u64(v.5) + (be_u64(v.6) + e))));
    lemma_dec_u64(v.3, be_u64(v.4) + (be_u64(v.5) + (be_u64(v.6) + e)));
    lemma_dec_u64(v.4, be_u64(v.5) + (be_u64(v.6) + e));
    lemma_dec_u64(v.5, be_u64(v.6) + e);
    lemma_dec_u64(v.6, e);
}

} // verus!
