//! Answer of a central server to the administrator: which operation it
//! answers, whether it succeeded, an identifier, and an optional payload.

use crate::bytes::{
    append_bytes, be_u64, dec_u64, dec_u8, lemma_dec_u64, lemma_dec_u8, push_u64_be, read_u64,
    read_u8, then, ByteCursor, Decoded, GenId, SUCCESS,
};
use crate::fmt::{decimal, push_decimal};
use vstd::prelude::*;

verus! {

/// Confirmation telling whether an operation succeeded (`0`) or not (`1`).
#[derive(Debug)]
pub struct DataResponseMessage {
    code: u8,
    status: u8,
    id: GenId,
    piggyback: Option<Vec<u8>>,
}

/// Abstract value of a response: `(code, status, id, piggyback)`.
pub type DataResponseView = (u8, u8, u64, Option<Seq<u8>>);

impl View for DataResponseMessage {
    type V = DataResponseView;

    closed spec fn view(&self) -> DataResponseView {
        (
            self.code,
            self.status,
            self.id,
            match self.piggyback {
                Some(p) => Some(p@),
                None => None,
            },
        )
    }
}

/// The payload part of the encoding: its length, then its bytes (length 0
/// when there is none).
pub open spec fn piggyback_wire(p: Option<Seq<u8>>) -> Seq<u8> {
    match p {
        Some(p) => be_u64(p.len() as u64) + p,
        None => be_u64(0),
    }
}

/// `[code, status, id, piggyback_len, piggyback]`, numbers in big endian.
pub open spec fn data_response_wire(v: DataResponseView) -> Seq<u8> {
    seq![v.0, v.1] + be_u64(v.2) + piggyback_wire(v.3)
}

/// Decoding of a response. A payload length that runs past the input cannot
/// be handled.
pub open spec fn dec_data_response(b: Seq<u8>) -> Decoded<DataResponseView> {
    then(
        dec_u8(b),
        |code: u8, r1: Seq<u8>|
            then(
                dec_u8(r1),
                |status: u8, r2: Seq<u8>|
                    then(
                        dec_u64(r2),
                        |id: u64, r3: Seq<u8>|
                            then(
                                dec_u64(r3),
                                |n: u64, r4: Seq<u8>|
                                    if n == 0 {
                                        Decoded::Value((code, status, id, None), r4)
                                    } else if r4.len() >= n {
                                        Decoded::Value(
                                            (code, status, id, Some(r4.take(n as int))),
                                            r4.skip(n as int),
                                        )
                                    } else {
                                        Decoded::Invalid
                                    },
                            ),
                    ),
            ),
    )
}

/// An empty payload travels as no payload.
pub open spec fn normalized(v: DataResponseView) -> DataResponseView {
    match v.3 {
        Some(p) => if p.len() == 0 {
            (v.0, v.1, v.2, None)
        } else {
            v
        },
        None => v,
    }
}

/// The text shown for a response: `OK <id>` on success, `Error <id>` otherwise.
pub open spec fn data_response_text(v: DataResponseView) -> Seq<char> {
    (if v.1 == 0 {
        seq!['O', 'K']
    } else {
        seq!['E', 'r', 'r', 'o', 'r']
    }) + seq![' '] + decimal(v.2 as nat)
}

impl DataResponseMessage {
    pub fn new(code: u8, status: u8, id: GenId, piggyback: Option<Vec<u8>>) -> (m: Self)
        ensures
            m@ == (code, status, id, match piggyback {
                Some(p) => Some(p@),
                None => None::<Seq<u8>>,
            }),
    {
        DataResponseMessage { code, status, id, piggyback }
    }

    pub fn status(&self) -> (s: u8)
        ensures
            s == self@.1,
    {
        self.status
    }

    pub fn code(&self) -> (c: u8)
        ensures
            c == self@.0,
    {
        self.code
    }

    pub fn piggyback(&self) -> (p: Option<Vec<u8>>)
        ensures
            match p {
                Some(v) => self@.3 == Some(v@),
                None => self@.3 is None,
            },
    {
        match &self.piggyback {
            Some(p) => Some(p.clone()),
            None => None,
        }
    }

    pub fn id(&self) -> (i: GenId)
        ensures
            i == self@.2,
    {
        self.id
    }

    /// Whether the response reports success.
    pub open spec fn succeeded(self) -> bool {
        self@.1 == SUCCESS
    }

    /// `OK <id>` when the status is 0, `Error <id>` otherwise.
    pub fn to_string(&self) -> (s: String)
        ensures
            s@ == data_response_text(self@),
    {
        let mut s = if self.status == 0 {
            "OK".to_string()
        } else {
            "Error".to_string()
        };
        proof {
            reveal_strlit("OK");
            reveal_strlit("Error");
        }
        crate::fmt::append_chars(&mut s, &" ".to_string());
        proof {
            reveal_strlit(" ");
        }
        push_decimal(&mut s, self.id);
        assert(s@ =~= data_response_text(self@));
        s
    }

    /// Serializes as `[code, status, id, piggyback_len, piggyback]`.
    pub fn serialize(&self) -> (buf: Vec<u8>)
        ensures
            buf@ == data_response_wire(self@),
    {
        let mut buf: Vec<u8> = Vec::new();
        buf.push(self.code);
        buf.push(self.status);
        push_u64_be(&mut buf, self.id);
        match &self.piggyback {
            Some(p) => {
                push_u64_be(&mut buf, p.len() as u64);
                append_bytes(&mut buf, p.as_slice());
            },
            None => {
                push_u64_be(&mut buf, 0);
            },
        }
        assert(buf@ =~= data_response_wire(self@));
        buf
    }

    /// Decodes a response. `None` when the payload length runs past the input.
    pub fn deserialize_checked(bytes: &[u8]) -> (r: Option<Result<Self, String>>)
        ensures
            r is None <==> dec_data_response(bytes@) is Invalid,
            dec_data_response(bytes@) matches Decoded::Value(v, _) ==> (r matches Some(Ok(m))
                && m@ == v),
            dec_data_response(bytes@) is Short ==> (r matches Some(Err(_))),
    {
        let mut cursor = ByteCursor::new(vstd::slice::slice_to_vec(bytes));
        let code = match read_u8(&mut cursor) {
            Ok(v) => v,
            Err(e) => return Some(Err(e.to_string())),
        };
        let status = match read_u8(&mut cursor) {
            Ok(v) => v,
            Err(e) => return Some(Err(e.to_string())),
        };
        let id = match read_u64(&mut cursor) {
            Ok(v) => v,
            Err(e) => return Some(Err(e.to_string())),
        };
        let piggyback_len = match read_u64(&mut cursor) {
            Ok(v) => v,
            Err(e) => return Some(Err(e.to_string())),
        };
        if piggyback_len > 0 {
            if piggyback_len > cursor.remaining() as u64 {
                return None;
            }
            let start = cursor.position();
            let total = bytes.len();
            assert(start as int + piggyback_len as int <= total as int);
            let end = start + piggyback_len as usize;
            proof {
                assert(cursor.rest() =~= bytes@.subrange(start as int, bytes@.len() as int));
            }
            let piggyback = vstd::slice::slice_to_vec(vstd::slice::slice_subrange(bytes, start, end));
            assert(piggyback@ =~= cursor.rest().take(piggyback_len as int));
            return Some(Ok(DataResponseMessage { code, status, id, piggyback: Some(piggyback) }));
        }
        Some(Ok(DataResponseMessage { code, status, id, piggyback: None }))
    }

    /// Decodes a response. The payload length must not run past the input.
    pub fn deserialize(bytes: &[u8]) -> (r: Result<Self, String>)
        requires
            !(dec_data_response(bytes@) is Invalid),
        ensures
            dec_data_response(bytes@) matches Decoded::Value(v, _) ==> (r matches Ok(m) && m@
                == v),
            dec_data_response(bytes@) is Short ==> r is Err,
    {
        match Self::deserialize_checked(bytes) {
            Some(r) => r,
            None => {
                proof {
                    assert(false);
                }
                Err("invalid payload length".to_string())
            },
        }
    }
}

/// Decoding the encoding of a response gives it back, except that an empty
/// payload comes back as no payload.
pub proof fn lemma_data_response_roundtrip(v: DataResponseView)
    requires
        v.3 matches Some(q) ==> q.len() <= u64::MAX,
    ensures
        dec_data_response(data_response_wire(v)) == Decoded::Value(
            normalized(v),
            Seq::<u8>::empty(),
        ),
{
    let e = Seq::<u8>::empty();
    let w = data_response_wire(v);
    let p = piggyback_wire(v.3);
    assert(w =~= seq![v.0] + (seq![v.1] + (be_u64(v.2) + (p + e))));
    lemma_dec_u8(v.0, seq![v.1] + (be_u64(v.2) + (p + e)));
    lemma_dec_u8(v.1, be_u64(v.2) + (p + e));
    lemma_dec_u64(v.2, p + e);
    match v.3 {
        Some(q) => {
            lemma_dec_u64(q.len() as u64, q);
            assert(p + e =~= be_u64(q.len() as u64) + q);
            assert(q.take(q.len() as int) =~= q);
            assert(q.skip(q.len() as int) =~= e);
            if q.len() == 0 {
                assert(q =~= e);
            }
        },
        None => {
            lemma_dec_u64(0, e);
            assert(p + e =~= be_u64(0) + e);
        },
    }
}

} // verus!
