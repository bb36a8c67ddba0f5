//! Answer of a central server to a probe: the client address of the leader
//! and the client addresses of every known node.

use crate::bytes::{
    all_fit, be_u64, dec_str, dec_str_list, dec_u64, lemma_dec_str_field, lemma_dec_str_list,
    lemma_dec_u64, push_str_field, push_str_fields, push_u64_be, read_str_field, read_str_list,
    read_u64, str_field, str_fields, then, ByteCursor, Decoded, encode_utf8_fits,
};
use vstd::prelude::*;

verus! {

/// Operation code of a probe sent by the administrator.
pub const PROBE: u8 = 7;

/// Lets a central server tell the administrator which node is the leader.
pub struct ProbeResponse {
    leader_ip: String,
    known_nodes: Vec<String>,
}

impl View for ProbeResponse {
    /// `(leader_ip, known_nodes)`
    type V = (Seq<char>, Seq<Seq<char>>);

    closed spec fn view(&self) -> (Seq<char>, Seq<Seq<char>>) {
        (self.leader_ip@, self.known_nodes.deep_view())
    }
}

/// `[ip_len, ip, node_count, (node_len, node)*]`, numbers in big endian.
pub open spec fn probe_response_wire(v: (Seq<char>, Seq<Seq<char>>)) -> Seq<u8> {
    str_field(v.0) + be_u64(v.1.len() as u64) + str_fields(v.1)
}

/// Decoding of a probe response.
pub open spec fn dec_probe_response(b: Seq<u8>) -> Decoded<(Seq<char>, Seq<Seq<char>>)> {
    then(
        dec_str(b),
        |ip: Seq<char>, r1: Seq<u8>|
            then(
                dec_u64(r1),
                |n: u64, r2: Seq<u8>|
                    then(
                        dec_str_list(r2, n as nat),
                        |nodes: Seq<Seq<char>>, r3: Seq<u8>| Decoded::Value((ip, nodes), r3),
                    ),
            ),
    )
}

impl ProbeResponse {
    pub fn new(leader_ip: String, known_nodes: Vec<String>) -> (m: Self)
        ensures
            m@ == (leader_ip@, known_nodes.deep_view()),
    {
        ProbeResponse { leader_ip, known_nodes }
    }

    /// The leader's client address.
    pub fn ip(&self) -> (s: String)
        ensures
            s@ == self@.0,
    {
        self.leader_ip.clone()
    }

    /// The client addresses of the known nodes.
    pub fn nodes(&self) -> (v: Vec<String>)
        ensures
            v.deep_view() == self@.1,
    {
        let v = self.known_nodes.clone();
        proof {
            assert forall|i: int| 0 <= i < v.len() implies #[trigger] v.deep_view()[i]
                == self.known_nodes.deep_view()[i] by {
                assert(cloned::<String>(self.known_nodes[i], v[i]));
            }
            assert(v.deep_view() =~= self.known_nodes.deep_view());
        }
        v
    }

    /// Serializes as `[ip_len, ip, node_count, (node_len, node)*]`.
    pub fn serialize(&self) -> (buf: Vec<u8>)
        ensures
            buf@ == probe_response_wire(self@),
    {
        let mut buf: Vec<u8> = Vec::new();
        push_str_field(&mut buf, self.leader_ip.as_str());
        push_u64_be(&mut buf, self.known_nodes.len() as u64);
        push_str_fields(&mut buf, &self.known_nodes);
        assert(buf@ =~= probe_response_wire(self@));
        buf
    }

    /// Decodes a probe response. `None` when a string is not UTF-8.
    pub fn deserialize_checked(bytes: &[u8]) -> (r: Option<Result<Self, String>>)
        ensures
            r is None <==> dec_probe_response(bytes@) is Invalid,
            dec_probe_response(bytes@) matches Decoded::Value(v, _) ==> (r matches Some(Ok(m))
                && m@ == v),
            dec_probe_response(bytes@) is Short ==> (r matches Some(Err(_))),
    {
        let mut cursor = ByteCursor::new(vstd::slice::slice_to_vec(bytes));
        let leader_ip = match read_str_field(&mut cursor) {
            Ok(Some(s)) => s,
            Ok(None) => return None,
            Err(e) => return Some(Err(e.to_string())),
        };
        let count = match read_u64(&mut cursor) {
            Ok(n) => n,
            Err(e) => return Some(Err(e.to_string())),
        };
        let known_nodes = match read_str_list(&mut cursor, count) {
            Ok(Some(l)) => l,
            Ok(None) => return None,
            Err(e) => return Some(Err(e.to_string())),
        };
        Some(Ok(ProbeResponse { leader_ip, known_nodes }))
    }

    /// Decodes a probe response. Its strings must be UTF-8 wherever the input
    /// holds them.
    pub fn deserialize(bytes: &[u8]) -> (r: Result<Self, String>)
        requires
            !(dec_probe_response(bytes@) is Invalid),
        ensures
            dec_probe_response(bytes@) matches Decoded::Value(v, _) ==> (r matches Ok(m) && m@
                == v),
            dec_probe_response(bytes@) is Short ==> r is Err,
    {
        match Self::deserialize_checked(bytes) {
            Some(r) => r,
            None => {
                proof {
                    assert(false);
                }
                Err("invalid text".to_string())
            },
        }
    }
}

/// Decoding the encoding of a probe response gives it back.
pub proof fn lemma_probe_response_roundtrip(v: (Seq<char>, Seq<Seq<char>>))
    requires
        encode_utf8_fits(v.0),
        all_fit(v.1),
        v.1.len() <= u64::MAX,
    ensures
        dec_probe_response(probe_response_wire(v)) == Decoded::Value(v, Seq::<u8>::empty()),
{
    let e = Seq::<u8>::empty();
    let n = v.1.len() as u64;
    assert(probe_response_wire(v) =~= str_field(v.0) + (be_u64(n) + (str_fields(v.1) + e)));
    lemma_dec_str_field(v.0, be_u64(n) + (str_fields(v.1) + e));
    lemma_dec_u64(n, str_fields(v.1) + e);
    lemma_dec_str_list(v.1, e);
}

} // verus!
