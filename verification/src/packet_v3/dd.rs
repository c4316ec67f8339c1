//! Database Description packets.
use vstd::prelude::*;

use crate::packet_v3;
use crate::packet_v3::{
    get_headers, put_headers, LsaV3Header, PacketV3Error, DD_V3_FLAG_I, DD_V3_FLAG_M, DD_V3_FLAG_MS,
    DD_V3_MIN_LEN,
};
use crate::wire;
use crate::wire::{get_u16, get_u24, get_u32, put_u16, put_u24, put_u32};

verus! {

/// The body of a Database Description packet.
#[derive(Debug)]
pub struct DbDescV3Packet {
    pub options: u32,
    pub interface_mtu: u16,
    pub flags: u8,
    pub dd_sequence_number: u32,
    pub lsa_headers: Vec<LsaV3Header>,
}

/// What a Database Description packet says.
pub struct DbDescV3View {
    pub options: u32,
    pub interface_mtu: u16,
    pub flags: u8,
    pub dd_sequence_number: u32,
    pub lsa_headers: Seq<LsaV3Header>,
}

impl View for DbDescV3Packet {
    type V = DbDescV3View;

    open spec fn view(&self) -> DbDescV3View {
        DbDescV3View {
            options: self.options,
            interface_mtu: self.interface_mtu,
            flags: self.flags,
            dd_sequence_number: self.dd_sequence_number,
            lsa_headers: self.lsa_headers@,
        }
    }
}

impl DbDescV3View {
    /// The I bit.
    pub open spec fn is_init(self) -> bool {
        self.flags & DD_V3_FLAG_I != 0
    }

    /// The M bit.
    pub open spec fn has_more(self) -> bool {
        self.flags & DD_V3_FLAG_M != 0
    }

    /// The MS bit.
    pub open spec fn is_master(self) -> bool {
        self.flags & DD_V3_FLAG_MS != 0
    }

    /// The packet that opens an exchange: I, M and MS set, nothing described.
    pub open spec fn is_fresh_init(self) -> bool {
        self.is_init() && self.has_more() && self.is_master() && self.lsa_headers.len() == 0
    }

    /// The octets of the body.
    pub open spec fn bytes(self) -> Seq<u8> {
        seq![0u8] + wire::be24(self.options) + wire::be16(self.interface_mtu) + seq![
            0u8,
            self.flags,
        ] + wire::be32(self.dd_sequence_number) + packet_v3::headers_bytes(self.lsa_headers)
    }

    /// The packet whose body is `s`.
    pub open spec fn spec_parse(s: Seq<u8>) -> Result<DbDescV3View, PacketV3Error> {
        if s.len() < DD_V3_MIN_LEN {
            Err(PacketV3Error::TooShort { expected: DD_V3_MIN_LEN, got: s.len() as usize })
        } else {
            match packet_v3::headers_from(s, 12) {
                Err(e) => Err(e),
                Ok(hs) => Ok(
                    DbDescV3View {
                        options: wire::u24_at(s, 1),
                        interface_mtu: wire::u16_at(s, 4),
                        flags: s[7],
                        dd_sequence_number: wire::u32_at(s, 8),
                        lsa_headers: hs,
                    },
                ),
            }
        }
    }

    /// What `encode` writes, `parse` reads back.
    pub proof fn lemma_roundtrip(self)
        requires
            self.options < 0x1000000,
        ensures
            DbDescV3View::spec_parse(self.bytes()) == Ok::<DbDescV3View, PacketV3Error>(self),
    {
        let s = self.bytes();
        let n = packet_v3::headers_bytes(self.lsa_headers);
        assert(s.subrange(1, 4) =~= wire::be24(self.options));
        assert(s.subrange(4, 6) =~= wire::be16(self.interface_mtu));
        assert(s.subrange(8, 12) =~= wire::be32(self.dd_sequence_number));
        assert(s.subrange(12, s.len() as int) =~= n);
        wire::lemma_be24_inside(s, 1, self.options);
        wire::lemma_be16_inside(s, 4, self.interface_mtu);
        wire::lemma_be32_inside(s, 8, self.dd_sequence_number);
        packet_v3::lemma_headers_roundtrip(self.lsa_headers, s, 12);
    }
}

impl DbDescV3Packet {
    /// The I bit.
    pub fn is_init(&self) -> (r: bool)
        ensures
            r == self@.is_init(),
    {
        self.flags & DD_V3_FLAG_I != 0
    }

    /// The M bit.
    pub fn has_more(&self) -> (r: bool)
        ensures
            r == self@.has_more(),
    {
        self.flags & DD_V3_FLAG_M != 0
    }

    /// The MS bit.
    pub fn is_master(&self) -> (r: bool)
        ensures
            r == self@.is_master(),
    {
        self.flags & DD_V3_FLAG_MS != 0
    }

    /// Appends the octets of the body.
    pub fn encode(&self, buf: &mut Vec<u8>)
        ensures
            final(buf)@ == old(buf)@ + self@.bytes(),
    {
        buf.push(0);
        put_u24(buf, self.options);
        put_u16(buf, self.interface_mtu);
        buf.push(0);
        buf.push(self.flags);
        put_u32(buf, self.dd_sequence_number);
        put_headers(buf, &self.lsa_headers);
        assert(buf@ =~= old(buf)@ + self@.bytes());
    }

    /// Reads a Database Description body.
    pub fn parse(data: &[u8]) -> (r: Result<DbDescV3Packet, PacketV3Error>)
        ensures
            match (r, DbDescV3View::spec_parse(data@)) {
                (Ok(h), Ok(v)) => h@ == v,
                (Err(e), Err(f)) => e == f,
                _ => false,
            },
    {
        if data.len() < DD_V3_MIN_LEN {
            return Err(PacketV3Error::TooShort { expected: DD_V3_MIN_LEN, got: data.len() });
        }
        match get_headers(data, 12) {
            Err(e) => Err(e),
            Ok(hs) => Ok(
                DbDescV3Packet {
                    options: get_u24(data, 1),
                    interface_mtu: get_u16(data, 4),
                    flags: data[7],
                    dd_sequence_number: get_u32(data, 8),
                    lsa_headers: hs,
                },
            ),
        }
    }
}

} // verus!
