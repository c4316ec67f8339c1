//! Database Description packets.
use vstd::prelude::*;

use crate::packet::hello::OspfOptions;
use crate::packet::lsa;
use crate::packet::lsa::{get_headers, put_headers, LsaHeader};
use crate::packet::PacketError;
use crate::wire;
use crate::wire::{get_u16, get_u32, put_u16, put_u32};

verus! {

/// Octets of a Database Description that lists no header.
pub const DD_MIN_LEN: usize = 8;

/// The bit of the packet that opens an exchange.
pub const DD_FLAG_I: u8 = 0x04;

/// The bit that announces further packets.
pub const DD_FLAG_M: u8 = 0x02;

/// The bit of the master of an exchange.
pub const DD_FLAG_MS: u8 = 0x01;

/// The body of a Database Description packet.
#[derive(Debug)]
pub struct DbDescPacket {
    pub interface_mtu: u16,
    pub options: OspfOptions,
    pub flags: u8,
    pub dd_sequence_number: u32,
    pub lsa_headers: Vec<LsaHeader>,
}

/// What a Database Description packet says.
pub struct DbDescView {
    pub interface_mtu: u16,
    pub options: OspfOptions,
    pub flags: u8,
    pub dd_sequence_number: u32,
    pub lsa_headers: Seq<LsaHeader>,
}

impl View for DbDescPacket {
    type V = DbDescView;

    open spec fn view(&self) -> DbDescView {
        DbDescView {
            interface_mtu: self.interface_mtu,
            options: self.options,
            flags: self.flags,
            dd_sequence_number: self.dd_sequence_number,
            lsa_headers: self.lsa_headers@,
        }
    }
}

impl DbDescView {
    /// The I bit.
    pub open spec fn is_init(self) -> bool {
        self.flags & DD_FLAG_I != 0
    }

    /// The M bit.
    pub open spec fn has_more(self) -> bool {
        self.flags & DD_FLAG_M != 0
    }

    /// The MS bit.
    pub open spec fn is_master(self) -> bool {
        self.flags & DD_FLAG_MS != 0
    }

    /// The octets of the body.
    pub open spec fn bytes(self) -> Seq<u8> {
        wire::be16(self.interface_mtu) + seq![self.options.0, self.flags] + wire::be32(
            self.dd_sequence_number,
        ) + lsa::headers_bytes(self.lsa_headers)
    }

    /// The packet whose body is `s`.
    pub open spec fn spec_parse(s: Seq<u8>) -> Result<DbDescView, PacketError> {
        if s.len() < DD_MIN_LEN {
            Err(PacketError::TooShort { expected: DD_MIN_LEN, got: s.len() as usize })
        } else {
            match lsa::headers_from(s, 8) {
                Err(e) => Err(e),
                Ok(hs) => Ok(
                    DbDescView {
                        interface_mtu: wire::u16_at(s, 0),
                        options: OspfOptions(s[2]),
                        flags: s[3],
                        dd_sequence_number: wire::u32_at(s, 4),
                        lsa_headers: hs,
                    },
                ),
            }
        }
    }
}

impl DbDescPacket {
    /// The I bit.
    pub fn is_init(&self) -> (r: bool)
        ensures
            r == self@.is_init(),
    {
        self.flags & DD_FLAG_I != 0
    }

    /// The M bit.
    pub fn has_more(&self) -> (r: bool)
        ensures
            r == self@.has_more(),
    {
        self.flags & DD_FLAG_M != 0
    }

    /// The MS bit.
    pub fn is_master(&self) -> (r: bool)
        ensures
            r == self@.is_master(),
    {
        self.flags & DD_FLAG_MS != 0
    }

    /// Appends the octets of the body.
    pub fn encode(&self, buf: &mut Vec<u8>)
        ensures
            final(buf)@ == old(buf)@ + self@.bytes(),
    {
        put_u16(buf, self.interface_mtu);
        buf.push(self.options.0);
        buf.push(self.flags);
        put_u32(buf, self.dd_sequence_number);
        put_headers(buf, &self.lsa_headers);
        assert(buf@ =~= old(buf)@ + self@.bytes());
    }

    /// Reads a Database Description body.
    pub fn parse(data: &[u8]) -> (r: Result<DbDescPacket, PacketError>)
        ensures
            match (r, DbDescView::spec_parse(data@)) {
                (Ok(h), Ok(v)) => h@ == v,
                (Err(e), Err(f)) => e == f,
                _ => false,
            },
    {
        if data.len() < DD_MIN_LEN {
            return Err(PacketError::TooShort { expected: DD_MIN_LEN, got: data.len() });
        }
        match get_headers(data, 8) {
            Err(e) => Err(e),
            Ok(hs) => Ok(
                DbDescPacket {
                    interface_mtu: get_u16(data, 0),
                    options: OspfOptions(data[2]),
                    flags: data[3],
                    dd_sequence_number: get_u32(data, 4),
                    lsa_headers: hs,
                },
            ),
        }
    }
}

} // verus!
