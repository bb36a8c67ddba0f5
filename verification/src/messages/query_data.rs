//! Query of an account's records, optionally narrowed to one card and to a
//! range of dates.

use crate::bytes::{
    be_i64, be_u64, dec_i64, dec_u64, dec_u8, lemma_dec_i64, lemma_dec_u64, lemma_dec_u8,
    push_i64_be, push_u64_be, read_timestamp, read_u64, read_u8, then, AccountId, ByteCursor,
    CardId, Decoded, TimeStamp,
};
use vstd::prelude::*;

verus! {

/// Operation code of a query.
pub const QUERY: u8 = 5;

/// Account to query, with filters: `card_id` 0 selects every card of the
/// account; `start_date` and `end_date` both 0 select the whole history.
#[derive(Debug)]
pub struct QueryDataMessage {
    q_type: u8,
    id: AccountId,
    card_id: CardId,
    start_date: TimeStamp,
    end_date: TimeStamp,
}

/// `(q_type, account_id, card_id, start_date, end_date)`
pub type QueryDataView = (u8, u64, u64, i64, i64);

impl View for QueryDataMessage {
    type V = QueryDataView;

    closed spec fn view(&self) -> QueryDataView {
        (self.q_type, self.id, self.card_id, self.start_date, self.end_date)
    }
}

/// `[QUERY, q_type, id, card_id, start_date, end_date]`, numbers in big endian.
pub open spec fn query_data_wire(v: QueryDataView) -> Seq<u8> {
    seq![QUERY, v.0] + be_u64(v.1) + be_u64(v.2) + be_i64(v.3) + be_i64(v.4)
}

/// Decoding of a query whose operation code was already consumed.
pub open spec fn dec_query_data(b: Seq<u8>) -> Decoded<QueryDataView> {
    then(
        dec_u8(b),
        |t: u8, r1: Seq<u8>|
            then(
                dec_u64(r1),
                |id: u64, r2: Seq<u8>|
                    then(
                        dec_u64(r2),
                        |card: u64, r3: Seq<u8>|
                            then(
                                dec_i64(r3),
                                |start: i64, r4: Seq<u8>|
                                    then(
                                        dec_i64(r4),
                                        |end: i64, r5: Seq<u8>|
                                            Decoded::Value((t, id, card, start, end), r5),
                                    ),
                            ),
                    ),
            ),
    )
}

impl QueryDataMessage {
    pub fn new(
        q_type: u8,
        id: AccountId,
        card_id: CardId,
        start_date: TimeStamp,
        end_date: TimeStamp,
    ) -> (m: Self)
        ensures
            m@ == (q_type, id, card_id, start_date, end_date),
    {
        QueryDataMessage { q_type, id, card_id, start_date, end_date }
    }

    pub fn account_id(&self) -> (r: AccountId)
        ensures
            r == self@.1,
    {
        self.id
    }

    pub fn card_id(&self) -> (r: CardId)
        ensures
            r == self@.2,
    {
        self.card_id
    }

    pub fn start_date(&self) -> (r: TimeStamp)
        ensures
            r == self@.3,
    {
        self.start_date
    }

    pub fn end_date(&self) -> (r: TimeStamp)
        ensures
            r == self@.4,
    {
        self.end_date
    }

    pub fn query_type(&self) -> (r: u8)
        ensures
            r == self@.0,
    {
        self.q_type
    }

    /// Serializes as `[QUERY, q_type, id, card_id, start_date, end_date]`.
    pub fn serialize(&self) -> (buf: Vec<u8>)
        ensures
            buf@ == query_data_wire(self@),
    {
        let mut buf: Vec<u8> = Vec::new();
        buf.push(QUERY);
        buf.push(self.q_type);
        push_u64_be(&mut buf, self.id);
        push_u64_be(&mut buf, self.card_id);
        push_i64_be(&mut buf, self.start_date);
        push_i64_be(&mut buf, self.end_date);
        assert(buf@ =~= query_data_wire(self@));
        buf
    }

    /// Decodes a query whose operation code was already consumed.
    pub fn deserialize(bytes: &[u8]) -> (r: Result<Self, String>)
        ensures
            dec_query_data(bytes@) matches Decoded::Value(v, _) ==> (r matches Ok(m) && m@ == v),
            dec_query_data(bytes@) is Short ==> r is Err,
            !(dec_query_data(bytes@) is Invalid),
    {
        let mut cursor = ByteCursor::new(vstd::slice::slice_to_vec(bytes));
        let q_type = match read_u8(&mut cursor) {
            Ok(v) => v,
            Err(e) => return Err(e.to_string()),
        };
        let id = match read_u64(&mut cursor) {
            Ok(v) => v,
            Err(e) => return Err(e.to_string()),
        };
        let card_id = match read_u64(&mut cursor) {
            Ok(v) => v,
            Err(e) => return Err(e.to_string()),
        };
        let start_date = match read_timestamp(&mut cursor) {
            Ok(v) => v,
            Err(e) => return Err(e.to_string()),
        };
        let end_date = match read_timestamp(&mut cursor) {
            Ok(v) => v,
            Err(e) => return Err(e.to_string()),
        };
        Ok(QueryDataMessage { q_type, id, card_id, start_date, end_date })
    }
}

/// Decoding the encoding of a query, without its operation code, gives it back.
pub proof fn lemma_query_data_roundtrip(v: QueryDataView)
    ensures
        dec_query_data(query_data_wire(v).skip(1)) == Decoded::Value(v, Seq::<u8>::empty()),
{
    let e = Seq::<u8>::empty();
    let w = query_data_wire(v).skip(1);
    assert(w =~= seq![v.0] + (be_u64(v.1) + (be_u64(v.2) + (be_i64(v.3) + (be_i64(v.4) + e)))));
    lemma_dec_u8(v.0, be_u64(v.1) + (be_u64(v.2) + (be_i64(v.3) + (be_i64(v.4) + e))));
    lemma_dec_u64(v.1, be_u64(v.2) + (be_i64(v.3) + (be_i64(v.4) + e)));
    lemma_dec_u64(v.2, be_i64(v.3) + (be_i64(v.4) + e));
    lemma_dec_i64(v.3, be_i64(v.4) + e);
    lemma_dec_i64(v.4, e);
}

} // verus!
