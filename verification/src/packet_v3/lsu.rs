//! Link State Update packets.
use vstd::prelude::*;

use crate::packet_v3::{LsaV3Header, PacketV3Error, LSA_V3_HEADER_LEN};
use crate::wire;
use crate::wire::{copy_bytes, copy_range, get_u32, put_bytes, put_u32};

verus! {

/// One LSA as it stands on the wire, with its decoded header.
#[derive(Debug)]
pub struct LsaV3Raw {
    pub header: LsaV3Header,
    /// Header and body octets.
    pub raw: Vec<u8>,
}

/// What one LSA on the wire holds.
pub struct LsaV3RawView {
    pub header: LsaV3Header,
    pub raw: Seq<u8>,
}

impl View for LsaV3Raw {
    type V = LsaV3RawView;

    open spec fn view(&self) -> LsaV3RawView {
        LsaV3RawView { header: self.header, raw: self.raw@ }
    }
}

impl LsaV3Raw {
    /// A copy of the LSA.
    pub fn duplicate(&self) -> (r: LsaV3Raw)
        ensures
            r@ == self@,
    {
        LsaV3Raw { header: self.header, raw: copy_bytes(&self.raw) }
    }
}

/// The octets of the LSAs, one after the other.
pub open spec fn lsas_bytes(ls: Seq<LsaV3RawView>) -> Seq<u8>
    decreases ls.len(),
{
    if ls.len() == 0 {
        Seq::empty()
    } else {
        lsas_bytes(ls.drop_last()) + ls.last().raw
    }
}

/// The octets of the update body that carries `ls`.
pub open spec fn update_bytes(ls: Seq<LsaV3RawView>) -> Seq<u8> {
    wire::be32((ls.len() % 0x100000000) as u32) + lsas_bytes(ls)
}

/// `n` LSAs from `off` on, each as long as its header says.
pub open spec fn lsas_from(s: Seq<u8>, off: int, n: nat) -> Result<Seq<LsaV3RawView>, PacketV3Error>
    decreases n,
{
    if n == 0 {
        Ok(Seq::empty())
    } else if off + LSA_V3_HEADER_LEN > s.len() {
        Err(
            PacketV3Error::TooShort {
                expected: LSA_V3_HEADER_LEN,
                got: (s.len() - off) as usize,
            },
        )
    } else {
        match LsaV3Header::spec_at(s, off) {
            Err(e) => Err(e),
            Ok(h) => if h.length < LSA_V3_HEADER_LEN {
                Err(PacketV3Error::BadLsaLength(h.length))
            } else if off + h.length > s.len() {
                Err(
                    PacketV3Error::TooShort {
                        expected: h.length as usize,
                        got: (s.len() - off) as usize,
                    },
                )
            } else {
                match lsas_from(s, off + h.length, (n - 1) as nat) {
                    Err(e) => Err(e),
                    Ok(rest) => Ok(
                        seq![LsaV3RawView { header: h, raw: s.subrange(off, off + h.length) }] + rest,
                    ),
                }
            },
        }
    }
}

/// The LSAs that the update body `s` carries.
pub open spec fn update_parse(s: Seq<u8>) -> Result<Seq<LsaV3RawView>, PacketV3Error> {
    if s.len() < 4 {
        Err(PacketV3Error::TooShort { expected: 4, got: s.len() as usize })
    } else {
        lsas_from(s, 4, wire::u32_at(s, 0) as nat)
    }
}

/// The body of a Link State Update.
#[derive(Debug)]
pub struct LsUpdateV3Packet {
    pub lsas: Vec<LsaV3Raw>,
}

impl View for LsUpdateV3Packet {
    type V = Seq<LsaV3RawView>;

    open spec fn view(&self) -> Seq<LsaV3RawView> {
        wire::views(self.lsas@)
    }
}

impl LsUpdateV3Packet {
    /// Appends the octets of the body.
    pub fn encode(&self, buf: &mut Vec<u8>)
        ensures
            final(buf)@ == old(buf)@ + update_bytes(self@),
    {
        let ls = &self.lsas;
        put_u32(buf, (ls.len() as u64 % 0x100000000) as u32);
        let ghost start = buf@;
        let mut i: usize = 0;
        assert(self@.take(0) =~= Seq::empty());
        assert(buf@ =~= start + lsas_bytes(self@.take(0)));
        while i < ls.len()
            invariant
                i <= ls@.len(),
                ls@ == self.lsas@,
                buf@ == start + lsas_bytes(self@.take(i as int)),
            decreases ls.len() - i,
        {
            put_bytes(buf, ls[i].raw.as_slice());
            assert(self@.take(i + 1).drop_last() =~= self@.take(i as int));
            i = i + 1;
            assert(buf@ =~= start + lsas_bytes(self@.take(i as int)));
        }
        assert(self@.take(i as int) =~= self@);
        assert(buf@ =~= old(buf)@ + update_bytes(self@));
    }

    /// Reads a Link State Update body.
    pub fn parse(data: &[u8]) -> (r: Result<LsUpdateV3Packet, PacketV3Error>)
        ensures
            match (r, update_parse(data@)) {
                (Ok(p), Ok(v)) => p@ == v,
                (Err(e), Err(f)) => e == f,
                _ => false,
            },
    {
        broadcast use wire::lemma_views_push;

        if data.len() < 4 {
            return Err(PacketV3Error::TooShort { expected: 4, got: data.len() });
        }
        let total: u32 = get_u32(data, 0);
        let mut left: u32 = total;
        let mut i: usize = 4;
        let mut v: Vec<LsaV3Raw> = Vec::new();
        let ghost all = update_parse(data@);
        assert(all matches Ok(hs) ==> hs =~= wire::views(v@) + hs);
        while left > 0
            invariant
                4 <= i <= data@.len(),
                match (all, lsas_from(data@, i as int, left as nat)) {
                    (Ok(hs), Ok(rest)) => hs == wire::views(v@) + rest,
                    (Err(e), Err(f)) => e == f,
                    _ => false,
                },
                all == update_parse(data@),
            decreases left,
        {
            if data.len() - i < LSA_V3_HEADER_LEN {
                return Err(
                    PacketV3Error::TooShort { expected: LSA_V3_HEADER_LEN, got: data.len() - i },
                );
            }
            match LsaV3Header::parse_at(data, i) {
                Err(e) => {
                    return Err(e);
                },
                Ok(h) => {
                    let len: usize = h.length as usize;
                    if len < LSA_V3_HEADER_LEN {
                        return Err(PacketV3Error::BadLsaLength(h.length));
                    }
                    if data.len() - i < len {
                        return Err(
                            PacketV3Error::TooShort { expected: len, got: data.len() - i },
                        );
                    }
                    let lsa = LsaV3Raw { header: h, raw: copy_range(data, i, i + len) };
                    let ghost before = wire::views(v@);
                    let ghost one = lsa@;
                    v.push(lsa);
                    i = i + len;
                    left = left - 1;
                    proof {
                        match lsas_from(data@, i as int, left as nat) {
                            Ok(rest) => {
                                assert(before + (seq![one] + rest) =~= wire::views(v@) + rest);
                            },
                            Err(_) => {},
                        }
                    }
                },
            }
        }
        assert(wire::views(v@) + Seq::<LsaV3RawView>::empty() =~= wire::views(v@));
        Ok(LsUpdateV3Packet { lsas: v })
    }
}

} // verus!
