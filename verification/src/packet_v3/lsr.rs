//! Link State Request packets.
use vstd::prelude::*;

use crate::packet_v3::{LsaV3Header, LsaV3Type, PacketV3Error};
use crate::wire;
use crate::wire::{get_u16, get_u32, put_u16, put_u32};

verus! {

/// Octets of one request.
pub const LS_REQUEST_V3_LEN: usize = 12;

/// One requested LSA.
#[derive(Clone, Copy, Debug, PartialEq, Eq, Structural)]
pub struct LsRequestV3 {
    pub ls_type: LsaV3Type,
    pub link_state_id: u32,
    pub advertising_router: u32,
}

impl LsRequestV3 {
    /// The request for the LSA that `h` names.
    pub open spec fn of_header(h: LsaV3Header) -> LsRequestV3 {
        LsRequestV3 {
            ls_type: h.ls_type,
            link_state_id: h.link_state_id,
            advertising_router: h.advertising_router,
        }
    }

    /// The twelve octets of the request.
    pub open spec fn bytes(self) -> Seq<u8> {
        seq![0u8, 0u8] + wire::be16(self.ls_type.spec_code()) + wire::be32(self.link_state_id)
            + wire::be32(self.advertising_router)
    }

    /// The request whose octets start at `off`, which twelve octets follow.
    pub open spec fn spec_at(s: Seq<u8>, off: int) -> Result<LsRequestV3, PacketV3Error> {
        match LsaV3Type::spec_from_code(wire::u16_at(s, off + 2)) {
            None => Err(PacketV3Error::UnknownLsaType(wire::u16_at(s, off + 2))),
            Some(t) => Ok(
                LsRequestV3 {
                    ls_type: t,
                    link_state_id: wire::u32_at(s, off + 4),
                    advertising_router: wire::u32_at(s, off + 8),
                },
            ),
        }
    }
}

/// The octets of the requests, one after the other.
pub open spec fn requests_bytes(rs: Seq<LsRequestV3>) -> Seq<u8>
    decreases rs.len(),
{
    if rs.len() == 0 {
        Seq::empty()
    } else {
        requests_bytes(rs.drop_last()) + rs.last().bytes()
    }
}

/// The requests from `off` on; fewer than twelve octets at the end are ignored.
pub open spec fn requests_from(s: Seq<u8>, off: int) -> Result<Seq<LsRequestV3>, PacketV3Error>
    decreases s.len() - off,
{
    if off + LS_REQUEST_V3_LEN > s.len() {
        Ok(Seq::empty())
    } else {
        match LsRequestV3::spec_at(s, off) {
            Err(e) => Err(e),
            Ok(r) => match requests_from(s, off + LS_REQUEST_V3_LEN) {
                Err(e) => Err(e),
                Ok(rest) => Ok(seq![r] + rest),
            },
        }
    }
}

/// The body of a Link State Request.
#[derive(Debug)]
pub struct LsRequestV3Packet {
    pub requests: Vec<LsRequestV3>,
}

impl View for LsRequestV3Packet {
    type V = Seq<LsRequestV3>;

    open spec fn view(&self) -> Seq<LsRequestV3> {
        self.requests@
    }
}

impl LsRequestV3Packet {
    /// Appends the octets of the body.
    pub fn encode(&self, buf: &mut Vec<u8>)
        ensures
            final(buf)@ == old(buf)@ + requests_bytes(self@),
    {
        let rs = &self.requests;
        let mut i: usize = 0;
        assert(rs@.take(0) =~= Seq::empty());
        assert(buf@ =~= old(buf)@ + requests_bytes(rs@.take(0)));
        while i < rs.len()
            invariant
                i <= rs@.len(),
                buf@ == old(buf)@ + requests_bytes(rs@.take(i as int)),
            decreases rs.len() - i,
        {
            let ghost before = buf@;
            buf.push(0);
            buf.push(0);
            put_u16(buf, rs[i].ls_type.code());
            put_u32(buf, rs[i].link_state_id);
            put_u32(buf, rs[i].advertising_router);
            assert(buf@ =~= before + rs@[i as int].bytes());
            assert(rs@.take(i + 1).drop_last() =~= rs@.take(i as int));
            i = i + 1;
            assert(buf@ =~= old(buf)@ + requests_bytes(rs@.take(i as int)));
        }
        assert(rs@.take(i as int) =~= rs@);
    }

    /// Reads a Link State Request body.
    pub fn parse(data: &[u8]) -> (r: Result<LsRequestV3Packet, PacketV3Error>)
        ensures
            match (r, requests_from(data@, 0)) {
                (Ok(p), Ok(v)) => p@ == v,
                (Err(e), Err(f)) => e == f,
                _ => false,
            },
    {
        let mut v: Vec<LsRequestV3> = Vec::new();
        let mut i: usize = 0;
        let ghost all = requests_from(data@, 0);
        assert(all matches Ok(hs) ==> hs =~= v@ + hs);
        while data.len() - i >= LS_REQUEST_V3_LEN
            invariant
                i <= data@.len(),
                match (all, requests_from(data@, i as int)) {
                    (Ok(hs), Ok(rest)) => hs == v@ + rest,
                    (Err(e), Err(f)) => e == f,
                    _ => false,
                },
                all == requests_from(data@, 0),
            decreases data.len() - i,
        {
            let code: u16 = get_u16(data, i + 2);
            match LsaV3Type::from_code(code) {
                None => {
                    return Err(PacketV3Error::UnknownLsaType(code));
                },
                Some(t) => {
                    let req = LsRequestV3 {
                        ls_type: t,
                        link_state_id: get_u32(data, i + 4),
                        advertising_router: get_u32(data, i + 8),
                    };
                    let ghost before = v@;
                    v.push(req);
                    i = i + LS_REQUEST_V3_LEN;
                    proof {
                        match requests_from(data@, i as int) {
                            Ok(rest) => {
                                assert(before + (seq![req] + rest) =~= v@ + rest);
                            },
                            Err(_) => {},
                        }
                    }
                },
            }
        }
        assert(v@ + Seq::<LsRequestV3>::empty() =~= v@);
        Ok(LsRequestV3Packet { requests: v })
    }
}

} // verus!
