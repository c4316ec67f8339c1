//! Link State Update packets.
use vstd::prelude::*;

use crate::packet::lsa;
use crate::packet::lsa::{Lsa, LsaHeader, LSA_HEADER_LEN};
use crate::packet::PacketError;
use crate::wire;
use crate::wire::{copy_range, get_u32, put_bytes, put_u32};

verus! {

broadcast use {wire::lemma_views_push, wire::lemma_views_update};

/// The octets of the LSAs, one after the other.
pub open spec fn lsas_bytes(ls: Seq<lsa::LsaView>) -> Seq<u8>
    decreases ls.len(),
{
    if ls.len() == 0 {
        Seq::empty()
    } else {
        lsas_bytes(ls.drop_last()) + ls.last().bytes()
    }
}

/// The octets of the update body that carries `ls`.
pub open spec fn update_bytes(ls: Seq<lsa::LsaView>) -> Seq<u8> {
    wire::be32((ls.len() % 0x100000000) as u32) + lsas_bytes(ls)
}

/// `n` LSAs from `off` on, each as long as its header says.
pub open spec fn lsas_from(s: Seq<u8>, off: int, n: nat) -> Result<Seq<lsa::LsaView>, PacketError>
    decreases n,
{
    if n == 0 {
        Ok(Seq::empty())
    } else if off + LSA_HEADER_LEN > s.len() {
        Err(PacketError::TooShort { expected: LSA_HEADER_LEN, got: (s.len() - off) as usize })
    } else {
        match LsaHeader::spec_at(s, off) {
            Err(e) => Err(e),
            Ok(h) => if h.length < LSA_HEADER_LEN {
                Err(PacketError::BadLsaLength(h.length))
            } else if off + h.length > s.len() {
                Err(
                    PacketError::TooShort {
                        expected: h.length as usize,
                        got: (s.len() - off) as usize,
                    },
                )
            } else {
                match lsa::LsaView::spec_parse(s.subrange(off, off + h.length)) {
                    Err(e) => Err(e),
                    Ok(l) => match lsas_from(s, off + h.length, (n - 1) as nat) {
                        Err(e) => Err(e),
                        Ok(rest) => Ok(seq![l] + rest),
                    },
                }
            },
        }
    }
}

/// The LSAs that the update body `s` carries.
pub open spec fn update_parse(s: Seq<u8>) -> Result<Seq<lsa::LsaView>, PacketError> {
    if s.len() < 4 {
        Err(PacketError::TooShort { expected: 4, got: s.len() as usize })
    } else {
        lsas_from(s, 4, wire::u32_at(s, 0) as nat)
    }
}

/// The body of a Link State Update.
#[derive(Debug)]
pub struct LsUpdatePacket {
    pub lsas: Vec<Lsa>,
}

impl View for LsUpdatePacket {
    type V = Seq<lsa::LsaView>;

    open spec fn view(&self) -> Seq<lsa::LsaView> {
        wire::views(self.lsas@)
    }
}

impl LsUpdatePacket {
    /// Appends the octets of the body.
    pub fn encode(&self, buf: &mut Vec<u8>)
        ensures
            final(buf)@ == old(buf)@ + update_bytes(self@),
    {
        let ls = &self.lsas;
        let ghost before = buf@;
        put_u32(buf, (ls.len() as u64 % 0x100000000) as u32);
        let ghost start = buf@;
        let mut i: usize = 0;
        assert(self@.take(0) =~= Seq::empty());
        assert(buf@ =~= start + lsas_bytes(self@.take(0)));
        while i < ls.len()
            invariant
                i <= ls@.len(),
                ls@ == self.lsas@,
                buf@ == start + lsas_bytes(self@.take(i as int)),
            decreases ls.len() - i,
        {
            let octets = ls[i].encode();
            put_bytes(buf, octets.as_slice());
            assert(self@.take(i + 1).drop_last() =~= self@.take(i as int));
            i = i + 1;
            assert(buf@ =~= start + lsas_bytes(self@.take(i as int)));
        }
        assert(self@.take(i as int) =~= self@);
        assert(buf@ =~= before + update_bytes(self@));
    }

    /// Reads a Link State Update body.
    pub fn parse(data: &[u8]) -> (r: Result<LsUpdatePacket, PacketError>)
        ensures
            match (r, update_parse(data@)) {
                (Ok(p), Ok(v)) => p@ == v,
                (Err(e), Err(f)) => e == f,
                _ => false,
            },
    {
        if data.len() < 4 {
            return Err(PacketError::TooShort { expected: 4, got: data.len() });
        }
        let total: u32 = get_u32(data, 0);
        let mut left: u32 = total;
        let mut i: usize = 4;
        let mut v: Vec<Lsa> = Vec::new();
        let ghost all = update_parse(data@);
        assert(all matches Ok(hs) ==> hs =~= wire::views(v@) + hs);
        while left > 0
            invariant
                4 <= i <= data@.len(),
                match (all, lsas_from(data@, i as int, left as nat)) {
                    (Ok(hs), Ok(rest)) => hs == wire::views(v@) + rest,
                    (Err(e), Err(f)) => e == f,
                    _ => false,
                },
                all == update_parse(data@),
            decreases left,
        {
            if data.len() - i < LSA_HEADER_LEN {
                return Err(
                    PacketError::TooShort { expected: LSA_HEADER_LEN, got: data.len() - i },
                );
            }
            match LsaHeader::parse_at(data, i) {
                Err(e) => {
                    return Err(e);
                },
                Ok(h) => {
                    let len: usize = h.length as usize;
                    if len < LSA_HEADER_LEN {
                        return Err(PacketError::BadLsaLength(h.length));
                    }
                    if data.len() - i < len {
                        return Err(PacketError::TooShort { expected: len, got: data.len() - i });
                    }
                    let octets = copy_range(data, i, i + len);
                    match Lsa::parse(octets.as_slice()) {
                        Err(e) => {
                            return Err(e);
                        },
                        Ok(l) => {
                            let ghost before = wire::views(v@);
                            let ghost one = l@;
                            v.push(l);
                            i = i + len;
                            left = left - 1;
                            proof {
                                match lsas_from(data@, i as int, left as nat) {
                                    Ok(rest) => {
                                        assert(before + (seq![one] + rest) =~= wire::views(v@)
                                            + rest);
                                    },
                                    Err(_) => {},
                                }
                            }
                        },
                    }
                },
            }
        }
        assert(wire::views(v@) + Seq::<lsa::LsaView>::empty() =~= wire::views(v@));
        Ok(LsUpdatePacket { lsas: v })
    }
}

} // verus!
