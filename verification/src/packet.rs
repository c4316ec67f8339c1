//! OSPFv2 packet and LSA formats.
use vstd::prelude::*;

use crate::packet::dd::DbDescPacket;
use crate::packet::hello::HelloPacket;
use crate::packet::inet::checksum_of;
use crate::packet::lsa::{get_headers, put_headers, LsaHeader, LsaKey};
use crate::packet::lsr::LsRequestPacket;
use crate::packet::lsu::LsUpdatePacket;
use crate::packet_v3::length_field;
use crate::wire;
use crate::wire::{copy_range, get_u16, get_u32, put_bytes, put_u16, put_u32};

pub mod auth;
pub mod checksum;
pub mod dd;
pub mod hello;
pub mod inet;
pub mod layout;
pub mod lsa;
pub mod lsr;
pub mod lsu;
pub mod roundtrip;

verus! {

/// Octets of a packet header.
pub const OSPF_HEADER_LEN: usize = 24;

/// The version number of the protocol.
pub const OSPF_VERSION: u8 = 2;

/// The multicast address of all OSPF routers, 224.0.0.5.
pub const ALL_SPF_ROUTERS: u32 = 0xe0000005;

/// The multicast address of the designated routers, 224.0.0.6.
pub const ALL_DR_ROUTERS: u32 = 0xe0000006;

/// Why a packet was not accepted.
#[derive(Clone, Copy, Debug, PartialEq, Eq, Structural)]
pub enum PacketError {
    TooShort { expected: usize, got: usize },
    BadVersion(u8),
    UnknownPacketType(u8),
    UnknownLsaType(u8),
    UnknownLinkType(u8),
    BadLsaLength(u16),
}

/// The packet types.
#[derive(Clone, Copy, Debug, PartialEq, Eq, Structural)]
pub enum OspfPacketType {
    Hello,
    DatabaseDescription,
    LinkStateRequest,
    LinkStateUpdate,
    LinkStateAck,
}

impl OspfPacketType {
    /// The number that stands for the type on the wire.
    pub open spec fn spec_code(self) -> u8 {
        match self {
            OspfPacketType::Hello => 1,
            OspfPacketType::DatabaseDescription => 2,
            OspfPacketType::LinkStateRequest => 3,
            OspfPacketType::LinkStateUpdate => 4,
            OspfPacketType::LinkStateAck => 5,
        }
    }

    /// The type that `c` stands for.
    pub open spec fn spec_from_code(c: u8) -> Option<OspfPacketType> {
        if c == 1 {
            Some(OspfPacketType::Hello)
        } else if c == 2 {
            Some(OspfPacketType::DatabaseDescription)
        } else if c == 3 {
            Some(OspfPacketType::LinkStateRequest)
        } else if c == 4 {
            Some(OspfPacketType::LinkStateUpdate)
        } else if c == 5 {
            Some(OspfPacketType::LinkStateAck)
        } else {
            None
        }
    }

    /// The number that stands for the type on the wire.
    pub fn code(self) -> (c: u8)
        ensures
            c == self.spec_code(),
    {
        match self {
            OspfPacketType::Hello => 1,
            OspfPacketType::DatabaseDescription => 2,
            OspfPacketType::LinkStateRequest => 3,
            OspfPacketType::LinkStateUpdate => 4,
            OspfPacketType::LinkStateAck => 5,
        }
    }

    /// The type that `c` stands for.
    pub fn from_code(c: u8) -> (t: Option<OspfPacketType>)
        ensures
            t == OspfPacketType::spec_from_code(c),
    {
        if c == 1 {
            Some(OspfPacketType::Hello)
        } else if c == 2 {
            Some(OspfPacketType::DatabaseDescription)
        } else if c == 3 {
            Some(OspfPacketType::LinkStateRequest)
        } else if c == 4 {
            Some(OspfPacketType::LinkStateUpdate)
        } else if c == 5 {
            Some(OspfPacketType::LinkStateAck)
        } else {
            None
        }
    }
}

/// The header of every packet. Length and checksum are filled in when the packet is encoded.
#[derive(Clone, Copy, Debug, PartialEq, Eq, Structural)]
pub struct OspfHeader {
    pub packet_type: OspfPacketType,
    pub packet_length: u16,
    pub router_id: u32,
    pub area_id: u32,
    pub checksum: u16,
    pub au_type: u16,
}

impl OspfHeader {
    /// The header of a packet that we send.
    pub open spec fn fresh(packet_type: OspfPacketType, router_id: u32, area_id: u32) -> OspfHeader {
        OspfHeader { packet_type, packet_length: 0, router_id, area_id, checksum: 0, au_type: 0 }
    }

    /// The header that `s` starts with.
    pub open spec fn spec_parse(s: Seq<u8>) -> Result<OspfHeader, PacketError> {
        if s.len() < OSPF_HEADER_LEN {
            Err(PacketError::TooShort { expected: OSPF_HEADER_LEN, got: s.len() as usize })
        } else if s[0] != OSPF_VERSION {
            Err(PacketError::BadVersion(s[0]))
        } else {
            match OspfPacketType::spec_from_code(s[1]) {
                None => Err(PacketError::UnknownPacketType(s[1])),
                Some(t) => if wire::u16_at(s, 2) < OSPF_HEADER_LEN {
                    Err(
                        PacketError::TooShort {
                            expected: OSPF_HEADER_LEN,
                            got: wire::u16_at(s, 2) as usize,
                        },
                    )
                } else if wire::u16_at(s, 2) > s.len() {
                    Err(
                        PacketError::TooShort {
                            expected: wire::u16_at(s, 2) as usize,
                            got: s.len() as usize,
                        },
                    )
                } else {
                    Ok(
                        OspfHeader {
                            packet_type: t,
                            packet_length: wire::u16_at(s, 2),
                            router_id: wire::u32_at(s, 4),
                            area_id: wire::u32_at(s, 8),
                            checksum: wire::u16_at(s, 12),
                            au_type: wire::u16_at(s, 14),
                        },
                    )
                },
            }
        }
    }

    /// The header of a packet that we send.
    pub fn new(packet_type: OspfPacketType, router_id: u32, area_id: u32) -> (h: OspfHeader)
        ensures
            h == OspfHeader::fresh(packet_type, router_id, area_id),
    {
        OspfHeader { packet_type, packet_length: 0, router_id, area_id, checksum: 0, au_type: 0 }
    }

    /// Reads the header of a packet.
    pub fn parse(data: &[u8]) -> (r: Result<OspfHeader, PacketError>)
        ensures
            r == OspfHeader::spec_parse(data@),
    {
        if data.len() < OSPF_HEADER_LEN {
            return Err(PacketError::TooShort { expected: OSPF_HEADER_LEN, got: data.len() });
        }
        if data[0] != OSPF_VERSION {
            return Err(PacketError::BadVersion(data[0]));
        }
        let t = match OspfPacketType::from_code(data[1]) {
            None => {
                return Err(PacketError::UnknownPacketType(data[1]));
            },
            Some(t) => t,
        };
        let len: u16 = get_u16(data, 2);
        if (len as usize) < OSPF_HEADER_LEN {
            return Err(PacketError::TooShort { expected: OSPF_HEADER_LEN, got: len as usize });
        }
        if len as usize > data.len() {
            return Err(PacketError::TooShort { expected: len as usize, got: data.len() });
        }
        Ok(
            OspfHeader {
                packet_type: t,
                packet_length: len,
                router_id: get_u32(data, 4),
                area_id: get_u32(data, 8),
                checksum: get_u16(data, 12),
                au_type: get_u16(data, 14),
            },
        )
    }
}

/// The body of an acknowledgment: the headers acknowledged.
#[derive(Debug)]
pub struct LsAckPacket {
    pub headers: Vec<LsaHeader>,
}

impl View for LsAckPacket {
    type V = Seq<LsaHeader>;

    open spec fn view(&self) -> Seq<LsaHeader> {
        self.headers@
    }
}

/// A packet.
#[derive(Debug)]
pub enum OspfPacket {
    Hello(OspfHeader, HelloPacket),
    DatabaseDescription(OspfHeader, DbDescPacket),
    LinkStateRequest(OspfHeader, LsRequestPacket),
    LinkStateUpdate(OspfHeader, LsUpdatePacket),
    LinkStateAck(OspfHeader, LsAckPacket),
}

/// What a packet says.
pub enum OspfPacketView {
    Hello(OspfHeader, hello::HelloView),
    DatabaseDescription(OspfHeader, dd::DbDescView),
    LinkStateRequest(OspfHeader, Seq<LsaKey>),
    LinkStateUpdate(OspfHeader, Seq<lsa::LsaView>),
    LinkStateAck(OspfHeader, Seq<LsaHeader>),
}

impl View for OspfPacket {
    type V = OspfPacketView;

    open spec fn view(&self) -> OspfPacketView {
        match self {
            OspfPacket::Hello(h, p) => OspfPacketView::Hello(*h, p@),
            OspfPacket::DatabaseDescription(h, p) => OspfPacketView::DatabaseDescription(*h, p@),
            OspfPacket::LinkStateRequest(h, p) => OspfPacketView::LinkStateRequest(*h, p@),
            OspfPacket::LinkStateUpdate(h, p) => OspfPacketView::LinkStateUpdate(*h, p@),
            OspfPacket::LinkStateAck(h, p) => OspfPacketView::LinkStateAck(*h, p@),
        }
    }
}

impl OspfPacketView {
    /// The header.
    pub open spec fn header(self) -> OspfHeader {
        match self {
            OspfPacketView::Hello(h, _) => h,
            OspfPacketView::DatabaseDescription(h, _) => h,
            OspfPacketView::LinkStateRequest(h, _) => h,
            OspfPacketView::LinkStateUpdate(h, _) => h,
            OspfPacketView::LinkStateAck(h, _) => h,
        }
    }

    /// The octets behind the header.
    pub open spec fn body_bytes(self) -> Seq<u8> {
        match self {
            OspfPacketView::Hello(_, p) => p.bytes(),
            OspfPacketView::DatabaseDescription(_, p) => p.bytes(),
            OspfPacketView::LinkStateRequest(_, p) => lsr::requests_bytes(p),
            OspfPacketView::LinkStateUpdate(_, p) => lsu::update_bytes(p),
            OspfPacketView::LinkStateAck(_, p) => lsa::headers_bytes(p),
        }
    }

    /// The octets of the packet, without authentication.
    pub open spec fn bytes(self) -> Seq<u8> {
        packet_bytes(self.header(), self.body_bytes())
    }

    /// The packet that `s` holds; what follows its announced length is ignored.
    pub open spec fn spec_parse(s: Seq<u8>) -> Result<OspfPacketView, PacketError> {
        match OspfHeader::spec_parse(s) {
            Err(e) => Err(e),
            Ok(h) => {
                let body = s.subrange(OSPF_HEADER_LEN as int, h.packet_length as int);
                match h.packet_type {
                    OspfPacketType::Hello => match hello::HelloView::spec_parse(body) {
                        Err(e) => Err(e),
                        Ok(p) => Ok(OspfPacketView::Hello(h, p)),
                    },
                    OspfPacketType::DatabaseDescription => match dd::DbDescView::spec_parse(body) {
                        Err(e) => Err(e),
                        Ok(p) => Ok(OspfPacketView::DatabaseDescription(h, p)),
                    },
                    OspfPacketType::LinkStateRequest => match lsr::requests_from(body, 0) {
                        Err(e) => Err(e),
                        Ok(p) => Ok(OspfPacketView::LinkStateRequest(h, p)),
                    },
                    OspfPacketType::LinkStateUpdate => match lsu::update_parse(body) {
                        Err(e) => Err(e),
                        Ok(p) => Ok(OspfPacketView::LinkStateUpdate(h, p)),
                    },
                    OspfPacketType::LinkStateAck => match lsa::headers_from(body, 0) {
                        Err(e) => Err(e),
                        Ok(p) => Ok(OspfPacketView::LinkStateAck(h, p)),
                    },
                }
            },
        }
    }
}

/// The header octets in front of the checksum.
pub open spec fn head_bytes(h: OspfHeader, body: Seq<u8>) -> Seq<u8> {
    seq![OSPF_VERSION, h.packet_type.spec_code()] + wire::be16(
        ((OSPF_HEADER_LEN + body.len()) % 65536) as u16,
    ) + wire::be32(h.router_id) + wire::be32(h.area_id)
}

/// What the packet checksum is taken of: all octets but the authentication, with a zero checksum.
pub open spec fn summed_bytes(h: OspfHeader, body: Seq<u8>) -> Seq<u8> {
    head_bytes(h, body) + seq![0u8, 0u8, 0u8, 0u8] + body
}

/// The octets of a packet without authentication.
pub open spec fn packet_bytes(h: OspfHeader, body: Seq<u8>) -> Seq<u8> {
    head_bytes(h, body) + wire::be16(inet::inet_checksum(summed_bytes(h, body))) + seq![
        0u8, 0u8,
        0u8, 0u8, 0u8, 0u8,
        0u8, 0u8, 0u8, 0u8,
    ] + body
}

/// What a receiver sums up to verify the checksum: all octets but the authentication.
pub open spec fn verified_bytes(s: Seq<u8>) -> Seq<u8> {
    s.subrange(0, 16) + s.skip(OSPF_HEADER_LEN as int)
}

/// Whether the packet checksum of `s` holds.
pub open spec fn checksum_holds(s: Seq<u8>) -> bool {
    s.len() >= OSPF_HEADER_LEN && inet::inet_checksum(verified_bytes(s)) == 0
}

/// Appends the header octets in front of the checksum.
fn put_head(buf: &mut Vec<u8>, h: &OspfHeader, body: &Vec<u8>)
    ensures
        final(buf)@ == old(buf)@ + head_bytes(*h, body@),
{
    let ghost start = buf@;
    buf.push(OSPF_VERSION);
    buf.push(h.packet_type.code());
    put_u16(buf, length_field(OSPF_HEADER_LEN, body.len()));
    put_u32(buf, h.router_id);
    put_u32(buf, h.area_id);
    assert(buf@ =~= start + head_bytes(*h, body@));
}

/// The octets of a packet without authentication.
fn encode_packet(h: &OspfHeader, body: &Vec<u8>) -> (r: Vec<u8>)
    ensures
        r@ == packet_bytes(*h, body@),
{
    let mut summed: Vec<u8> = Vec::new();
    put_head(&mut summed, h, body);
    put_u32(&mut summed, 0);
    put_bytes(&mut summed, body.as_slice());
    assert(summed@ =~= summed_bytes(*h, body@));
    let ck: u16 = checksum_of(summed.as_slice());
    let mut buf: Vec<u8> = Vec::new();
    put_head(&mut buf, h, body);
    put_u16(&mut buf, ck);
    put_u16(&mut buf, 0);
    put_u32(&mut buf, 0);
    put_u32(&mut buf, 0);
    put_bytes(&mut buf, body.as_slice());
    assert(buf@ =~= packet_bytes(*h, body@));
    buf
}

/// Whether the checksum of an encoded packet holds.
pub fn verify_ospf_checksum(data: &[u8]) -> (b: bool)
    ensures
        b == checksum_holds(data@),
{
    if data.len() < OSPF_HEADER_LEN {
        return false;
    }
    let mut summed = copy_range(data, 0, 16);
    let rest = copy_range(data, OSPF_HEADER_LEN, data.len());
    put_bytes(&mut summed, rest.as_slice());
    assert(summed@ =~= verified_bytes(data@));
    checksum_of(summed.as_slice()) == 0
}

impl OspfPacket {
    /// The header.
    pub fn header(&self) -> (h: OspfHeader)
        ensures
            h == self@.header(),
    {
        match self {
            OspfPacket::Hello(h, _) => *h,
            OspfPacket::DatabaseDescription(h, _) => *h,
            OspfPacket::LinkStateRequest(h, _) => *h,
            OspfPacket::LinkStateUpdate(h, _) => *h,
            OspfPacket::LinkStateAck(h, _) => *h,
        }
    }

    /// The octets behind the header.
    fn encode_body(&self) -> (r: Vec<u8>)
        ensures
            r@ == self@.body_bytes(),
    {
        let mut body: Vec<u8> = Vec::new();
        match self {
            OspfPacket::Hello(_, p) => p.encode(&mut body),
            OspfPacket::DatabaseDescription(_, p) => p.encode(&mut body),
            OspfPacket::LinkStateRequest(_, p) => p.encode(&mut body),
            OspfPacket::LinkStateUpdate(_, p) => p.encode(&mut body),
            OspfPacket::LinkStateAck(_, p) => put_headers(&mut body, &p.headers),
        }
        assert(body@ =~= self@.body_bytes());
        body
    }

    /// The octets of the packet, without authentication.
    pub fn encode(&self) -> (r: Vec<u8>)
        ensures
            r@ == self@.bytes(),
    {
        let body = self.encode_body();
        encode_packet(&self.header(), &body)
    }

    /// Reads a packet.
    pub fn parse(data: &[u8]) -> (r: Result<OspfPacket, PacketError>)
        ensures
            match (r, OspfPacketView::spec_parse(data@)) {
                (Ok(p), Ok(v)) => p@ == v,
                (Err(e), Err(f)) => e == f,
                _ => false,
            },
    {
        let h = match OspfHeader::parse(data) {
            Err(e) => {
                return Err(e);
            },
            Ok(h) => h,
        };
        let body = copy_range(data, OSPF_HEADER_LEN, h.packet_length as usize);
        match h.packet_type {
            OspfPacketType::Hello => match HelloPacket::parse(body.as_slice()) {
                Err(e) => Err(e),
                Ok(p) => Ok(OspfPacket::Hello(h, p)),
            },
            OspfPacketType::DatabaseDescription => match DbDescPacket::parse(body.as_slice()) {
                Err(e) => Err(e),
                Ok(p) => Ok(OspfPacket::DatabaseDescription(h, p)),
            },
            OspfPacketType::LinkStateRequest => match LsRequestPacket::parse(body.as_slice()) {
                Err(e) => Err(e),
                Ok(p) => Ok(OspfPacket::LinkStateRequest(h, p)),
            },
            OspfPacketType::LinkStateUpdate => match LsUpdatePacket::parse(body.as_slice()) {
                Err(e) => Err(e),
                Ok(p) => Ok(OspfPacket::LinkStateUpdate(h, p)),
            },
            OspfPacketType::LinkStateAck => match get_headers(body.as_slice(), 0) {
                Err(e) => Err(e),
                Ok(headers) => Ok(OspfPacket::LinkStateAck(h, LsAckPacket { headers })),
            },
        }
    }
}

/// Every packet leaves with a checksum that holds.
pub proof fn lemma_encoded_checksum_holds(p: OspfPacketView)
    ensures
        checksum_holds(p.bytes()),
{
    let h = p.header();
    let body = p.body_bytes();
    let s = summed_bytes(h, body);
    let c = inet::inet_checksum(s);
    assert(head_bytes(h, body).len() == 12);
    assert(s[12] == 0 && s[13] == 0);
    let t = s.update(12, (c / 256) as u8).update(13, (c % 256) as u8);
    assert(verified_bytes(p.bytes()) =~= t);
    inet::lemma_checksum_verifies(s, 12);
}

} // verus!
