//! Link State Request packets.
use vstd::prelude::*;

use crate::packet::lsa::{LsaKey, LsaType};
use crate::packet::PacketError;
use crate::wire;
use crate::wire::{get_u32, put_u32};

verus! {

/// Octets of one request.
pub const LS_REQUEST_LEN: usize = 12;

/// The octets of a request for the LSA with key `k`.
pub open spec fn request_bytes(k: LsaKey) -> Seq<u8> {
    wire::be32(k.ls_type.spec_code() as u32) + wire::be32(k.link_state_id) + wire::be32(
        k.advertising_router,
    )
}

/// The type that a request names by `c`.
pub open spec fn requested_type(c: u32) -> Option<LsaType> {
    if c < 256 {
        LsaType::spec_from_code(c as u8)
    } else {
        None
    }
}

/// The octets of the requests, one after the other.
pub open spec fn requests_bytes(rs: Seq<LsaKey>) -> Seq<u8>
    decreases rs.len(),
{
    if rs.len() == 0 {
        Seq::empty()
    } else {
        requests_bytes(rs.drop_last()) + request_bytes(rs.last())
    }
}

/// The requests from `off` on; fewer than twelve octets at the end are ignored.
pub open spec fn requests_from(s: Seq<u8>, off: int) -> Result<Seq<LsaKey>, PacketError>
    decreases s.len() - off,
{
    if off + LS_REQUEST_LEN > s.len() {
        Ok(Seq::empty())
    } else {
        match requested_type(wire::u32_at(s, off)) {
            None => Err(PacketError::UnknownLsaType(s[off + 3])),
            Some(t) => {
                let k = LsaKey {
                    ls_type: t,
                    link_state_id: wire::u32_at(s, off + 4),
                    advertising_router: wire::u32_at(s, off + 8),
                };
                match requests_from(s, off + LS_REQUEST_LEN) {
                    Err(e) => Err(e),
                    Ok(rest) => Ok(seq![k] + rest),
                }
            },
        }
    }
}

/// The body of a Link State Request.
#[derive(Debug)]
pub struct LsRequestPacket {
    pub requests: Vec<LsaKey>,
}

impl View for LsRequestPacket {
    type V = Seq<LsaKey>;

    open spec fn view(&self) -> Seq<LsaKey> {
        self.requests@
    }
}

impl LsRequestPacket {
    /// Appends the octets of the body.
    pub fn encode(&self, buf: &mut Vec<u8>)
        ensures
            final(buf)@ == old(buf)@ + requests_bytes(self@),
    {
        let rs = &self.requests;
        let ghost start = buf@;
        let mut i: usize = 0;
        assert(rs@.take(0) =~= Seq::empty());
        assert(buf@ =~= start + requests_bytes(rs@.take(0)));
        while i < rs.len()
            invariant
                i <= rs@.len(),
                buf@ == start + requests_bytes(rs@.take(i as int)),
            decreases rs.len() - i,
        {
            let ghost before = buf@;
            put_u32(buf, rs[i].ls_type.code() as u32);
            put_u32(buf, rs[i].link_state_id);
            put_u32(buf, rs[i].advertising_router);
            assert(buf@ =~= before + request_bytes(rs@[i as int]));
            assert(rs@.take(i + 1).drop_last() =~= rs@.take(i as int));
            i = i + 1;
            assert(buf@ =~= start + requests_bytes(rs@.take(i as int)));
        }
        assert(rs@.take(i as int) =~= rs@);
    }

    /// Reads a Link State Request body.
    pub fn parse(data: &[u8]) -> (r: Result<LsRequestPacket, PacketError>)
        ensures
            match (r, requests_from(data@, 0)) {
                (Ok(p), Ok(v)) => p@ == v,
                (Err(e), Err(f)) => e == f,
                _ => false,
            },
    {
        let mut v: Vec<LsaKey> = Vec::new();
        let mut i: usize = 0;
        let ghost all = requests_from(data@, 0);
        assert(all matches Ok(hs) ==> hs =~= v@ + hs);
        while data.len() - i >= LS_REQUEST_LEN
            invariant
                i <= data@.len(),
                match (all, requests_from(data@, i as int)) {
                    (Ok(hs), Ok(rest)) => hs == v@ + rest,
                    (Err(e), Err(f)) => e == f,
                    _ => false,
                },
                all == requests_from(data@, 0),
            decreases data.len() - i,
        {
            let code: u32 = get_u32(data, i);
            let known: Option<LsaType> = if code < 256 {
                LsaType::from_code(code as u8)
            } else {
                None
            };
            match known {
                None => {
                    return Err(PacketError::UnknownLsaType(data[i + 3]));
                },
                Some(t) => {
                    let k = LsaKey {
                        ls_type: t,
                        link_state_id: get_u32(data, i + 4),
                        advertising_router: get_u32(data, i + 8),
                    };
                    let ghost before = v@;
                    v.push(k);
                    i = i + LS_REQUEST_LEN;
                    proof {
                        match requests_from(data@, i as int) {
                            Ok(rest) => {
                                assert(before + (seq![k] + rest) =~= v@ + rest);
                            },
                            Err(_) => {},
                        }
                    }
                },
            }
        }
        assert(v@ + Seq::<LsaKey>::empty() =~= v@);
        Ok(LsRequestPacket { requests: v })
    }
}

} // verus!
