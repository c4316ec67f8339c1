//! Address prefixes as LSAs carry them.
use vstd::prelude::*;

use crate::packet_v3::PacketV3Error;
use crate::wire;
use crate::wire::{copy_range, get_u128, get_u16, put_bytes, put_u128, put_u16};

verus! {

/// A prefix with its options and the 16-bit field that follows them.
#[derive(Clone, Copy, Debug, PartialEq, Eq, Structural)]
pub struct Ospfv3Prefix {
    pub prefix_length: u8,
    pub prefix_options: u8,
    pub prefix_or_metric: u16,
    pub address: u128,
}

/// How many octets of the address a prefix of length `len` carries.
pub open spec fn address_octets(len: u8) -> int {
    if len > 96 {
        16
    } else if len > 64 {
        12
    } else if len > 32 {
        8
    } else if len > 0 {
        4
    } else {
        0
    }
}

/// How many octets of the address a prefix of length `len` carries.
pub fn octets_for(len: u8) -> (n: usize)
    ensures
        n == address_octets(len),
{
    if len > 96 {
        16
    } else if len > 64 {
        12
    } else if len > 32 {
        8
    } else if len > 0 {
        4
    } else {
        0
    }
}

impl Ospfv3Prefix {
    /// A prefix without options and with a zero third field.
    pub open spec fn spec_plain(address: u128, prefix_length: u8) -> Ospfv3Prefix {
        Ospfv3Prefix { prefix_length, prefix_options: 0, prefix_or_metric: 0, address }
    }

    /// A prefix without options and with a zero third field.
    pub fn plain(address: u128, prefix_length: u8) -> (p: Ospfv3Prefix)
        ensures
            p == Ospfv3Prefix::spec_plain(address, prefix_length),
    {
        Ospfv3Prefix { prefix_length, prefix_options: 0, prefix_or_metric: 0, address }
    }

    /// The leading octets of the address, as many as the length calls for.
    pub open spec fn address_bytes(self) -> Seq<u8> {
        wire::be128(self.address).take(address_octets(self.prefix_length))
    }

    /// The octets of the prefix.
    pub open spec fn bytes(self) -> Seq<u8> {
        seq![self.prefix_length, self.prefix_options] + wire::be16(self.prefix_or_metric)
            + self.address_bytes()
    }

    /// The prefix whose octets start at `off`, with the offset behind it.
    pub open spec fn spec_at(s: Seq<u8>, off: int) -> Result<(Ospfv3Prefix, int), PacketV3Error> {
        if off + 4 > s.len() {
            Err(PacketV3Error::TooShort { expected: 4, got: (s.len() - off) as usize })
        } else if s[off] > 128 {
            Err(PacketV3Error::BadPrefixLength(s[off]))
        } else {
            let n = address_octets(s[off]);
            if off + 4 + n > s.len() {
                Err(
                    PacketV3Error::TooShort {
                        expected: (4 + n) as usize,
                        got: (s.len() - off) as usize,
                    },
                )
            } else {
                let padded = s.subrange(off + 4, off + 4 + n) + Seq::new(
                    (16 - n) as nat,
                    |i: int| 0u8,
                );
                Ok(
                    (
                        Ospfv3Prefix {
                            prefix_length: s[off],
                            prefix_options: s[off + 1],
                            prefix_or_metric: wire::u16_at(s, off + 2),
                            address: wire::u128_at(padded, 0),
                        },
                        off + 4 + n,
                    ),
                )
            }
        }
    }

    /// Appends the leading octets of the address.
    pub fn put_address(&self, buf: &mut Vec<u8>)
        ensures
            final(buf)@ == old(buf)@ + self.address_bytes(),
    {
        let mut full: Vec<u8> = Vec::new();
        put_u128(&mut full, self.address);
        let n: usize = octets_for(self.prefix_length);
        assert(full@ =~= wire::be128(self.address));
        let head = copy_range(full.as_slice(), 0, n);
        put_bytes(buf, head.as_slice());
        assert(head@ =~= self.address_bytes());
    }

    /// Appends the octets of the prefix.
    pub fn encode(&self, buf: &mut Vec<u8>)
        ensures
            final(buf)@ == old(buf)@ + self.bytes(),
    {
        buf.push(self.prefix_length);
        buf.push(self.prefix_options);
        put_u16(buf, self.prefix_or_metric);
        self.put_address(buf);
        assert(buf@ =~= old(buf)@ + self.bytes());
    }

    /// Reads the prefix at `off` and the offset behind it.
    pub fn parse_at(data: &[u8], off: usize) -> (r: Result<(Ospfv3Prefix, usize), PacketV3Error>)
        requires
            off <= data@.len(),
        ensures
            match (r, Ospfv3Prefix::spec_at(data@, off as int)) {
                (Ok(p), Ok(q)) => p.0 == q.0 && p.1 == q.1 && p.1 <= data@.len(),
                (Err(e), Err(f)) => e == f,
                _ => false,
            },
    {
        let total: usize = data.len();
        if total - off < 4 {
            return Err(PacketV3Error::TooShort { expected: 4, got: total - off });
        }
        let len: u8 = data[off];
        if len > 128 {
            return Err(PacketV3Error::BadPrefixLength(len));
        }
        let n: usize = octets_for(len);
        if total - off < 4 + n {
            return Err(PacketV3Error::TooShort { expected: 4 + n, got: total - off });
        }
        let mut padded = copy_range(data, off + 4, off + 4 + n);
        while padded.len() < 16
            invariant
                n <= padded@.len() <= 16,
                n <= 16,
                off + 4 + n <= data@.len(),
                padded@ == data@.subrange(off + 4, off + 4 + n) + Seq::new(
                    (padded@.len() - n) as nat,
                    |i: int| 0u8,
                ),
            decreases 16 - padded.len(),
        {
            padded.push(0);
            assert(padded@ =~= data@.subrange(off + 4, off + 4 + n) + Seq::new(
                (padded@.len() - n) as nat,
                |i: int| 0u8,
            ));
        }
        assert(padded@ =~= data@.subrange(off + 4, off + 4 + n) + Seq::new(
            (16 - n) as nat,
            |i: int| 0u8,
        ));
        Ok(
            (
                Ospfv3Prefix {
                    prefix_length: len,
                    prefix_options: data[off + 1],
                    prefix_or_metric: get_u16(data, off + 2),
                    address: get_u128(padded.as_slice(), 0),
                },
                off + 4 + n,
            ),
        )
    }
}

/// The octets of the prefixes, one after the other.
pub open spec fn prefixes_bytes(ps: Seq<Ospfv3Prefix>) -> Seq<u8>
    decreases ps.len(),
{
    if ps.len() == 0 {
        Seq::empty()
    } else {
        prefixes_bytes(ps.drop_last()) + ps.last().bytes()
    }
}

/// `n` prefixes from `off` on.
pub open spec fn prefixes_from(s: Seq<u8>, off: int, n: nat) -> Result<
    Seq<Ospfv3Prefix>,
    PacketV3Error,
>
    decreases n,
{
    if n == 0 {
        Ok(Seq::empty())
    } else {
        match Ospfv3Prefix::spec_at(s, off) {
            Err(e) => Err(e),
            Ok(p) => match prefixes_from(s, p.1, (n - 1) as nat) {
                Err(e) => Err(e),
                Ok(rest) => Ok(seq![p.0] + rest),
            },
        }
    }
}

/// Appends the octets of the prefixes.
pub fn put_prefixes(buf: &mut Vec<u8>, ps: &Vec<Ospfv3Prefix>)
    ensures
        final(buf)@ == old(buf)@ + prefixes_bytes(ps@),
{
    let mut i: usize = 0;
    assert(ps@.take(0) =~= Seq::empty());
    assert(buf@ =~= old(buf)@ + prefixes_bytes(ps@.take(0)));
    while i < ps.len()
        invariant
            i <= ps@.len(),
            buf@ == old(buf)@ + prefixes_bytes(ps@.take(i as int)),
        decreases ps.len() - i,
    {
        ps[i].encode(buf);
        assert(ps@.take(i + 1).drop_last() =~= ps@.take(i as int));
        i = i + 1;
        assert(buf@ =~= old(buf)@ + prefixes_bytes(ps@.take(i as int)));
    }
    assert(ps@.take(i as int) =~= ps@);
}

/// Reads `n` prefixes from `off` on.
pub fn get_prefixes(data: &[u8], off: usize, n: u32) -> (r: Result<Vec<Ospfv3Prefix>, PacketV3Error>)
    requires
        off <= data@.len(),
    ensures
        match (r, prefixes_from(data@, off as int, n as nat)) {
            (Ok(v), Ok(ps)) => v@ == ps,
            (Err(e), Err(f)) => e == f,
            _ => false,
        },
{
    let mut v: Vec<Ospfv3Prefix> = Vec::new();
    let mut i: usize = off;
    let mut left: u32 = n;
    let ghost all = prefixes_from(data@, off as int, n as nat);
    assert(all matches Ok(hs) ==> hs =~= v@ + hs);
    while left > 0
        invariant
            i <= data@.len(),
            match (all, prefixes_from(data@, i as int, left as nat)) {
                (Ok(hs), Ok(rest)) => hs == v@ + rest,
                (Err(e), Err(f)) => e == f,
                _ => false,
            },
            all == prefixes_from(data@, off as int, n as nat),
        decreases left,
    {
        match Ospfv3Prefix::parse_at(data, i) {
            Err(e) => {
                return Err(e);
            },
            Ok(p) => {
                let ghost before = v@;
                v.push(p.0);
                i = p.1;
                left = left - 1;
                proof {
                    match prefixes_from(data@, i as int, left as nat) {
                        Ok(rest) => {
                            assert(before + (seq![p.0] + rest) =~= v@ + rest);
                        },
                        Err(_) => {},
                    }
                }
            },
        }
    }
    assert(v@ + Seq::<Ospfv3Prefix>::empty() =~= v@);
    Ok(v)
}

} // verus!
