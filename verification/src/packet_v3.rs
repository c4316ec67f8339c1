//! OSPFv3 packet and LSA formats.
use vstd::prelude::*;

use crate::wire;
use crate::wire::{from_bits, get_u16, get_u32, put_bytes, put_u16, put_u32, to_bits};

pub mod dd;
pub mod hello;
pub mod layout;
pub mod lsa;
pub mod lsack;
pub mod lsr;
pub mod lsu;
pub mod prefix;
pub mod roundtrip;

verus! {

/// Octets of the OSPFv3 packet header.
pub const OSPFV3_HEADER_LEN: usize = 16;

/// Octets of an OSPFv3 LSA header.
pub const LSA_V3_HEADER_LEN: usize = 20;

/// Octets of a Hello body that lists no neighbor.
pub const HELLO_V3_MIN_LEN: usize = 20;

/// Octets of a Database Description body that lists no header.
pub const DD_V3_MIN_LEN: usize = 12;

/// Age at which an LSA is withdrawn, in seconds.
pub const MAX_AGE: u16 = 3600;

/// Sequence number of the first instance of an LSA.
pub const INITIAL_SEQUENCE_NUMBER: i32 = -0x7fffffff;

/// ff02::5, the AllSPFRouters group.
pub const ALL_SPF_ROUTERS_V6: u128 = 0xff020000000000000000000000000005;

/// ff02::6, the AllDRouters group.
pub const ALL_DR_ROUTERS_V6: u128 = 0xff020000000000000000000000000006;

/// IP protocol number of OSPF.
pub const OSPFV3_IP_PROTO: u8 = 89;

/// Database Description flag: first packet of an exchange.
pub const DD_V3_FLAG_I: u8 = 0x04;

/// Database Description flag: more packets follow.
pub const DD_V3_FLAG_M: u8 = 0x02;

/// Database Description flag: the sender is master.
pub const DD_V3_FLAG_MS: u8 = 0x01;

/// Why a packet was not accepted.
#[derive(Clone, Copy, Debug, PartialEq, Eq, Structural)]
pub enum PacketV3Error {
    TooShort { expected: usize, got: usize },
    BadVersion(u8),
    UnknownPacketType(u8),
    UnknownLsaType(u16),
    BadLsaLength(u16),
    BadPrefixLength(u8),
}

/// The five OSPFv3 packet types.
#[derive(Clone, Copy, Debug, PartialEq, Eq, Structural)]
pub enum Ospfv3PacketType {
    Hello,
    DatabaseDescription,
    LinkStateRequest,
    LinkStateUpdate,
    LinkStateAck,
}

impl Ospfv3PacketType {
    /// The number that stands for the type on the wire.
    pub open spec fn spec_code(self) -> u8 {
        match self {
            Ospfv3PacketType::Hello => 1,
            Ospfv3PacketType::DatabaseDescription => 2,
            Ospfv3PacketType::LinkStateRequest => 3,
            Ospfv3PacketType::LinkStateUpdate => 4,
            Ospfv3PacketType::LinkStateAck => 5,
        }
    }

    /// The type that `c` stands for.
    pub open spec fn spec_from_code(c: u8) -> Option<Ospfv3PacketType> {
        if c == 1 {
            Some(Ospfv3PacketType::Hello)
        } else if c == 2 {
            Some(Ospfv3PacketType::DatabaseDescription)
        } else if c == 3 {
            Some(Ospfv3PacketType::LinkStateRequest)
        } else if c == 4 {
            Some(Ospfv3PacketType::LinkStateUpdate)
        } else if c == 5 {
            Some(Ospfv3PacketType::LinkStateAck)
        } else {
            None
        }
    }

    /// The number that stands for the type on the wire.
    pub fn code(self) -> (c: u8)
        ensures
            c == self.spec_code(),
    {
        match self {
            Ospfv3PacketType::Hello => 1,
            Ospfv3PacketType::DatabaseDescription => 2,
            Ospfv3PacketType::LinkStateRequest => 3,
            Ospfv3PacketType::LinkStateUpdate => 4,
            Ospfv3PacketType::LinkStateAck => 5,
        }
    }

    /// The type that `c` stands for.
    pub fn from_code(c: u8) -> (t: Option<Ospfv3PacketType>)
        ensures
            t == Ospfv3PacketType::spec_from_code(c),
    {
        if c == 1 {
            Some(Ospfv3PacketType::Hello)
        } else if c == 2 {
            Some(Ospfv3PacketType::DatabaseDescription)
        } else if c == 3 {
            Some(Ospfv3PacketType::LinkStateRequest)
        } else if c == 4 {
            Some(Ospfv3PacketType::LinkStateUpdate)
        } else if c == 5 {
            Some(Ospfv3PacketType::LinkStateAck)
        } else {
            None
        }
    }
}

/// The LSA types that the daemon originates or stores.
#[derive(Clone, Copy, Debug, PartialEq, Eq, Structural)]
pub enum LsaV3Type {
    Router,
    Network,
    InterAreaPrefix,
    InterAreaRouter,
    AsExternal,
    Nssa,
    Link,
    IntraAreaPrefix,
}

impl LsaV3Type {
    /// The 16-bit LS type, scope bits included.
    pub open spec fn spec_code(self) -> u16 {
        match self {
            LsaV3Type::Router => 0x2001,
            LsaV3Type::Network => 0x2002,
            LsaV3Type::InterAreaPrefix => 0x2003,
            LsaV3Type::InterAreaRouter => 0x2004,
            LsaV3Type::AsExternal => 0x4005,
            LsaV3Type::Nssa => 0x2007,
            LsaV3Type::Link => 0x0008,
            LsaV3Type::IntraAreaPrefix => 0x2009,
        }
    }

    /// The type that the 16-bit value `c` stands for.
    pub open spec fn spec_from_code(c: u16) -> Option<LsaV3Type> {
        if c == 0x2001 {
            Some(LsaV3Type::Router)
        } else if c == 0x2002 {
            Some(LsaV3Type::Network)
        } else if c == 0x2003 {
            Some(LsaV3Type::InterAreaPrefix)
        } else if c == 0x2004 {
            Some(LsaV3Type::InterAreaRouter)
        } else if c == 0x4005 {
            Some(LsaV3Type::AsExternal)
        } else if c == 0x2007 {
            Some(LsaV3Type::Nssa)
        } else if c == 0x0008 {
            Some(LsaV3Type::Link)
        } else if c == 0x2009 {
            Some(LsaV3Type::IntraAreaPrefix)
        } else {
            None
        }
    }

    /// The 16-bit LS type, scope bits included.
    pub fn code(self) -> (c: u16)
        ensures
            c == self.spec_code(),
    {
        match self {
            LsaV3Type::Router => 0x2001,
            LsaV3Type::Network => 0x2002,
            LsaV3Type::InterAreaPrefix => 0x2003,
            LsaV3Type::InterAreaRouter => 0x2004,
            LsaV3Type::AsExternal => 0x4005,
            LsaV3Type::Nssa => 0x2007,
            LsaV3Type::Link => 0x0008,
            LsaV3Type::IntraAreaPrefix => 0x2009,
        }
    }

    /// The type that the 16-bit value `c` stands for.
    pub fn from_code(c: u16) -> (t: Option<LsaV3Type>)
        ensures
            t == LsaV3Type::spec_from_code(c),
    {
        if c == 0x2001 {
            Some(LsaV3Type::Router)
        } else if c == 0x2002 {
            Some(LsaV3Type::Network)
        } else if c == 0x2003 {
            Some(LsaV3Type::InterAreaPrefix)
        } else if c == 0x2004 {
            Some(LsaV3Type::InterAreaRouter)
        } else if c == 0x4005 {
            Some(LsaV3Type::AsExternal)
        } else if c == 0x2007 {
            Some(LsaV3Type::Nssa)
        } else if c == 0x0008 {
            Some(LsaV3Type::Link)
        } else if c == 0x2009 {
            Some(LsaV3Type::IntraAreaPrefix)
        } else {
            None
        }
    }
}

/// The 24-bit options field.
#[derive(Clone, Copy, Debug, PartialEq, Eq, Structural)]
pub struct Options(pub u32);

impl Options {
    /// V6, E and R: an IPv6 router that takes part in AS-external routing.
    pub open spec fn spec_standard() -> Options {
        Options(0x13)
    }

    /// V6, E and R: an IPv6 router that takes part in AS-external routing.
    pub fn standard() -> (o: Options)
        ensures
            o == Options::spec_standard(),
    {
        Options(0x13)
    }
}

/// The header of every OSPFv3 packet.
#[derive(Clone, Copy, Debug, PartialEq, Eq, Structural)]
pub struct Ospfv3Header {
    pub packet_type: Ospfv3PacketType,
    pub packet_length: u16,
    pub router_id: u32,
    pub area_id: u32,
    pub checksum: u16,
    pub instance_id: u8,
}

impl Ospfv3Header {
    /// The sixteen octets of the header.
    pub open spec fn bytes(self) -> Seq<u8> {
        seq![3u8, self.packet_type.spec_code()] + wire::be16(self.packet_length) + wire::be32(
            self.router_id,
        ) + wire::be32(self.area_id) + wire::be16(self.checksum) + seq![self.instance_id, 0u8]
    }

    /// The header at the front of `s`.
    pub open spec fn spec_parse(s: Seq<u8>) -> Result<Ospfv3Header, PacketV3Error> {
        if s.len() < OSPFV3_HEADER_LEN {
            Err(PacketV3Error::TooShort { expected: OSPFV3_HEADER_LEN, got: s.len() as usize })
        } else if s[0] != 3 {
            Err(PacketV3Error::BadVersion(s[0]))
        } else {
            match Ospfv3PacketType::spec_from_code(s[1]) {
                None => Err(PacketV3Error::UnknownPacketType(s[1])),
                Some(t) => if wire::u16_at(s, 2) < OSPFV3_HEADER_LEN {
                    Err(
                        PacketV3Error::TooShort {
                            expected: OSPFV3_HEADER_LEN,
                            got: wire::u16_at(s, 2) as usize,
                        },
                    )
                } else {
                    Ok(
                    Ospfv3Header {
                        packet_type: t,
                        packet_length: wire::u16_at(s, 2),
                        router_id: wire::u32_at(s, 4),
                        area_id: wire::u32_at(s, 8),
                        checksum: wire::u16_at(s, 12),
                        instance_id: s[14],
                    },
                )},
            }
        }
    }

    /// A header with no length, no checksum and instance 0.
    pub fn new(packet_type: Ospfv3PacketType, router_id: u32, area_id: u32) -> (h: Ospfv3Header)
        ensures
            h == (Ospfv3Header {
                packet_type,
                packet_length: 0,
                router_id,
                area_id,
                checksum: 0,
                instance_id: 0,
            }),
    {
        Ospfv3Header { packet_type, packet_length: 0, router_id, area_id, checksum: 0, instance_id: 0 }
    }

    /// Reads the header at the front of `data`; a length field that does not cover the header is an
    /// error.
    pub fn parse(data: &[u8]) -> (r: Result<Ospfv3Header, PacketV3Error>)
        ensures
            r == Ospfv3Header::spec_parse(data@),
    {
        if data.len() < OSPFV3_HEADER_LEN {
            return Err(PacketV3Error::TooShort { expected: OSPFV3_HEADER_LEN, got: data.len() });
        }
        if data[0] != 3 {
            return Err(PacketV3Error::BadVersion(data[0]));
        }
        match Ospfv3PacketType::from_code(data[1]) {
            None => Err(PacketV3Error::UnknownPacketType(data[1])),
            Some(t) => {
                let packet_length: u16 = get_u16(data, 2);
                if (packet_length as usize) < OSPFV3_HEADER_LEN {
                    return Err(
                        PacketV3Error::TooShort {
                            expected: OSPFV3_HEADER_LEN,
                            got: packet_length as usize,
                        },
                    );
                }
                Ok(
                    Ospfv3Header {
                        packet_type: t,
                        packet_length,
                        router_id: get_u32(data, 4),
                        area_id: get_u32(data, 8),
                        checksum: get_u16(data, 12),
                        instance_id: data[14],
                    },
                )
            },
        }
    }

    /// Appends the octets of the header.
    pub fn encode(&self, buf: &mut Vec<u8>)
        ensures
            final(buf)@ == old(buf)@ + self.bytes(),
    {
        buf.push(3);
        buf.push(self.packet_type.code());
        put_u16(buf, self.packet_length);
        put_u32(buf, self.router_id);
        put_u32(buf, self.area_id);
        put_u16(buf, self.checksum);
        buf.push(self.instance_id);
        buf.push(0);
        assert(buf@ =~= old(buf)@ + self.bytes());
    }

    /// What `encode` writes, `parse` reads back.
    pub proof fn lemma_roundtrip(self, tail: Seq<u8>)
        requires
            self.packet_length >= OSPFV3_HEADER_LEN,
        ensures
            Ospfv3Header::spec_parse(self.bytes() + tail) == Ok::<Ospfv3Header, PacketV3Error>(self),
    {
        let s = self.bytes() + tail;
        assert(s.subrange(2, 4) =~= wire::be16(self.packet_length));
        assert(s.subrange(4, 8) =~= wire::be32(self.router_id));
        assert(s.subrange(8, 12) =~= wire::be32(self.area_id));
        assert(s.subrange(12, 14) =~= wire::be16(self.checksum));
        wire::lemma_be16_inside(s, 2, self.packet_length);
        wire::lemma_be32_inside(s, 4, self.router_id);
        wire::lemma_be32_inside(s, 8, self.area_id);
        wire::lemma_be16_inside(s, 12, self.checksum);
    }
}

/// A packet of the given type around `body`.
pub open spec fn framed(
    packet_type: Ospfv3PacketType,
    router_id: u32,
    area_id: u32,
    instance_id: u8,
    body: Seq<u8>,
) -> Seq<u8> {
    (Ospfv3Header {
        packet_type,
        packet_length: ((OSPFV3_HEADER_LEN + body.len()) % 65536) as u16,
        router_id,
        area_id,
        checksum: 0,
        instance_id,
    }).bytes() + body
}

/// The low 16 bits of `head + n`, as a length field holds them.
pub fn length_field(head: usize, n: usize) -> (r: u16)
    requires
        head <= 65535,
    ensures
        r == ((head + n) % 65536) as u16,
{
    ((head + n % 65536) % 65536) as u16
}

/// Puts a header in front of `body`; the length field holds the low 16 bits of the size.
pub fn frame(
    packet_type: Ospfv3PacketType,
    router_id: u32,
    area_id: u32,
    instance_id: u8,
    body: &Vec<u8>,
) -> (r: Vec<u8>)
    ensures
        r@ == framed(packet_type, router_id, area_id, instance_id, body@),
{
    let mut hdr = Ospfv3Header::new(packet_type, router_id, area_id);
    hdr.packet_length = length_field(OSPFV3_HEADER_LEN, body.len());
    hdr.instance_id = instance_id;
    let ghost head = hdr.bytes();
    let mut buf: Vec<u8> = Vec::new();
    hdr.encode(&mut buf);
    assert(Seq::<u8>::empty() + head =~= head);
    put_bytes(&mut buf, body.as_slice());
    buf
}

/// The header of every LSA.
#[derive(Clone, Copy, Debug, PartialEq, Eq, Structural)]
pub struct LsaV3Header {
    pub ls_age: u16,
    pub ls_type: LsaV3Type,
    pub link_state_id: u32,
    pub advertising_router: u32,
    pub ls_sequence_number: i32,
    pub ls_checksum: u16,
    pub length: u16,
}

impl LsaV3Header {
    /// The twenty octets of the header.
    pub open spec fn bytes(self) -> Seq<u8> {
        wire::be16(self.ls_age) + wire::be16(self.ls_type.spec_code()) + wire::be32(
            self.link_state_id,
        ) + wire::be32(self.advertising_router) + wire::be32(
            wire::i32_bits(self.ls_sequence_number),
        ) + wire::be16(self.ls_checksum) + wire::be16(self.length)
    }

    /// The header whose octets start at `off`, which twenty octets follow.
    pub open spec fn spec_at(s: Seq<u8>, off: int) -> Result<LsaV3Header, PacketV3Error> {
        match LsaV3Type::spec_from_code(wire::u16_at(s, off + 2)) {
            None => Err(PacketV3Error::UnknownLsaType(wire::u16_at(s, off + 2))),
            Some(t) => Ok(
                LsaV3Header {
                    ls_age: wire::u16_at(s, off),
                    ls_type: t,
                    link_state_id: wire::u32_at(s, off + 4),
                    advertising_router: wire::u32_at(s, off + 8),
                    ls_sequence_number: wire::bits_i32(wire::u32_at(s, off + 12)),
                    ls_checksum: wire::u16_at(s, off + 16),
                    length: wire::u16_at(s, off + 18),
                },
            ),
        }
    }

    /// Whether the two headers name the same LSA.
    pub open spec fn same_lsa(self, other: LsaV3Header) -> bool {
        self.ls_type == other.ls_type && self.link_state_id == other.link_state_id
            && self.advertising_router == other.advertising_router
    }

    /// Whether the two headers name the same LSA.
    pub fn names_same(&self, other: &LsaV3Header) -> (r: bool)
        ensures
            r == self.same_lsa(*other),
    {
        self.ls_type == other.ls_type && self.link_state_id == other.link_state_id
            && self.advertising_router == other.advertising_router
    }

    /// Reads the header at `off`.
    pub fn parse_at(data: &[u8], off: usize) -> (r: Result<LsaV3Header, PacketV3Error>)
        requires
            off + LSA_V3_HEADER_LEN <= data@.len(),
        ensures
            r == LsaV3Header::spec_at(data@, off as int),
    {
        let _total: usize = data.len();
        let code: u16 = get_u16(data, off + 2);
        match LsaV3Type::from_code(code) {
            None => Err(PacketV3Error::UnknownLsaType(code)),
            Some(t) => Ok(
                LsaV3Header {
                    ls_age: get_u16(data, off),
                    ls_type: t,
                    link_state_id: get_u32(data, off + 4),
                    advertising_router: get_u32(data, off + 8),
                    ls_sequence_number: from_bits(get_u32(data, off + 12)),
                    ls_checksum: get_u16(data, off + 16),
                    length: get_u16(data, off + 18),
                },
            ),
        }
    }

    /// Appends the octets of the header.
    pub fn encode(&self, buf: &mut Vec<u8>)
        ensures
            final(buf)@ == old(buf)@ + self.bytes(),
    {
        put_u16(buf, self.ls_age);
        put_u16(buf, self.ls_type.code());
        put_u32(buf, self.link_state_id);
        put_u32(buf, self.advertising_router);
        put_u32(buf, to_bits(self.ls_sequence_number));
        put_u16(buf, self.ls_checksum);
        put_u16(buf, self.length);
        assert(buf@ =~= old(buf)@ + self.bytes());
    }

    /// What `encode` writes, `parse_at` reads back, wherever it stands.
    pub proof fn lemma_roundtrip(self, s: Seq<u8>, off: int)
        requires
            0 <= off,
            off + LSA_V3_HEADER_LEN <= s.len(),
            s.subrange(off, off + LSA_V3_HEADER_LEN) == self.bytes(),
        ensures
            LsaV3Header::spec_at(s, off) == Ok::<LsaV3Header, PacketV3Error>(self),
    {
        let h = s.subrange(off, off + LSA_V3_HEADER_LEN);
        let b = self.bytes();
        assert(b.subrange(0, 2) =~= wire::be16(self.ls_age));
        assert(b.subrange(2, 4) =~= wire::be16(self.ls_type.spec_code()));
        assert(b.subrange(4, 8) =~= wire::be32(self.link_state_id));
        assert(b.subrange(8, 12) =~= wire::be32(self.advertising_router));
        assert(b.subrange(12, 16) =~= wire::be32(wire::i32_bits(self.ls_sequence_number)));
        assert(b.subrange(16, 18) =~= wire::be16(self.ls_checksum));
        assert(b.subrange(18, 20) =~= wire::be16(self.length));
        assert(s.subrange(off, off + 2) =~= h.subrange(0, 2));
        assert(s.subrange(off + 2, off + 4) =~= h.subrange(2, 4));
        assert(s.subrange(off + 4, off + 8) =~= h.subrange(4, 8));
        assert(s.subrange(off + 8, off + 12) =~= h.subrange(8, 12));
        assert(s.subrange(off + 12, off + 16) =~= h.subrange(12, 16));
        assert(s.subrange(off + 16, off + 18) =~= h.subrange(16, 18));
        assert(s.subrange(off + 18, off + 20) =~= h.subrange(18, 20));
        wire::lemma_be16_inside(s, off, self.ls_age);
        wire::lemma_be16_inside(s, off + 2, self.ls_type.spec_code());
        wire::lemma_be32_inside(s, off + 4, self.link_state_id);
        wire::lemma_be32_inside(s, off + 8, self.advertising_router);
        wire::lemma_be32_inside(s, off + 12, wire::i32_bits(self.ls_sequence_number));
        wire::lemma_be16_inside(s, off + 16, self.ls_checksum);
        wire::lemma_be16_inside(s, off + 18, self.length);
        wire::lemma_i32_bits_roundtrip(self.ls_sequence_number);
    }
}

/// The octets of the headers, one after the other.
pub open spec fn headers_bytes(hs: Seq<LsaV3Header>) -> Seq<u8>
    decreases hs.len(),
{
    if hs.len() == 0 {
        Seq::empty()
    } else {
        headers_bytes(hs.drop_last()) + hs.last().bytes()
    }
}

/// The headers from `off` on; fewer than twenty octets at the end are ignored.
pub open spec fn headers_from(s: Seq<u8>, off: int) -> Result<Seq<LsaV3Header>, PacketV3Error>
    decreases s.len() - off,
{
    if off + LSA_V3_HEADER_LEN > s.len() {
        Ok(Seq::empty())
    } else {
        match LsaV3Header::spec_at(s, off) {
            Err(e) => Err(e),
            Ok(h) => match headers_from(s, off + LSA_V3_HEADER_LEN) {
                Err(e) => Err(e),
                Ok(rest) => Ok(seq![h] + rest),
            },
        }
    }
}

/// Appends the octets of the headers.
pub fn put_headers(buf: &mut Vec<u8>, hs: &Vec<LsaV3Header>)
    ensures
        final(buf)@ == old(buf)@ + headers_bytes(hs@),
{
    let mut i: usize = 0;
    assert(hs@.take(0) =~= Seq::empty());
    assert(buf@ =~= old(buf)@ + headers_bytes(hs@.take(0)));
    while i < hs.len()
        invariant
            i <= hs@.len(),
            buf@ == old(buf)@ + headers_bytes(hs@.take(i as int)),
        decreases hs.len() - i,
    {
        hs[i].encode(buf);
        assert(hs@.take(i + 1).drop_last() =~= hs@.take(i as int));
        i = i + 1;
        assert(buf@ =~= old(buf)@ + headers_bytes(hs@.take(i as int)));
    }
    assert(hs@.take(i as int) =~= hs@);
}

/// Reads the headers from `off` on.
pub fn get_headers(data: &[u8], off: usize) -> (r: Result<Vec<LsaV3Header>, PacketV3Error>)
    requires
        off <= data@.len(),
    ensures
        match (r, headers_from(data@, off as int)) {
            (Ok(v), Ok(hs)) => v@ == hs,
            (Err(e), Err(f)) => e == f,
            _ => false,
        },
{
    let mut v: Vec<LsaV3Header> = Vec::new();
    let mut i: usize = off;
    let ghost all = headers_from(data@, off as int);
    assert(all matches Ok(hs) ==> hs =~= v@ + hs);
    while data.len() - i >= LSA_V3_HEADER_LEN
        invariant
            off <= i <= data@.len(),
            match (all, headers_from(data@, i as int)) {
                (Ok(hs), Ok(rest)) => hs == v@ + rest,
                (Err(e), Err(f)) => e == f,
                _ => false,
            },
            all == headers_from(data@, off as int),
        decreases data.len() - i,
    {
        match LsaV3Header::parse_at(data, i) {
            Err(e) => {
                return Err(e);
            },
            Ok(h) => {
                let ghost before = v@;
                v.push(h);
                i = i + LSA_V3_HEADER_LEN;
                proof {
                    match headers_from(data@, i as int) {
                        Ok(rest) => {
                            assert(before + (seq![h] + rest) =~= v@ + rest);
                        },
                        Err(_) => {},
                    }
                }
            },
        }
    }
    assert(v@ + Seq::<LsaV3Header>::empty() =~= v@);
    Ok(v)
}

/// The octets of the 32-bit values, one after the other.
pub open spec fn be32s(s: Seq<u32>) -> Seq<u8>
    decreases s.len(),
{
    if s.len() == 0 {
        Seq::empty()
    } else {
        be32s(s.drop_last()) + wire::be32(s.last())
    }
}

/// The 32-bit values from `off` on; fewer than four octets at the end are ignored.
pub open spec fn u32s_from(s: Seq<u8>, off: int) -> Seq<u32> {
    Seq::new(((s.len() - off) / 4) as nat, |k: int| wire::u32_at(s, off + 4 * k))
}

/// Appends the octets of the values.
pub fn put_u32s(buf: &mut Vec<u8>, xs: &Vec<u32>)
    ensures
        final(buf)@ == old(buf)@ + be32s(xs@),
{
    let mut i: usize = 0;
    assert(xs@.take(0) =~= Seq::empty());
    assert(buf@ =~= old(buf)@ + be32s(xs@.take(0)));
    while i < xs.len()
        invariant
            i <= xs@.len(),
            buf@ == old(buf)@ + be32s(xs@.take(i as int)),
        decreases xs.len() - i,
    {
        put_u32(buf, xs[i]);
        assert(xs@.take(i + 1).drop_last() =~= xs@.take(i as int));
        i = i + 1;
        assert(buf@ =~= old(buf)@ + be32s(xs@.take(i as int)));
    }
    assert(xs@.take(i as int) =~= xs@);
}

/// Reads the 32-bit values from `off` on.
pub fn get_u32s(data: &[u8], off: usize) -> (r: Vec<u32>)
    requires
        off <= data@.len(),
    ensures
        r@ == u32s_from(data@, off as int),
{
    let mut v: Vec<u32> = Vec::new();
    let mut i: usize = off;
    while data.len() - i >= 4
        invariant
            off <= i <= data@.len(),
            i == off + 4 * v@.len(),
            v@ == u32s_from(data@, off as int).take(v@.len() as int),
        decreases data.len() - i,
    {
        assert(v@.len() < u32s_from(data@, off as int).len());
        v.push(get_u32(data, i));
        i = i + 4;
        assert(v@ =~= u32s_from(data@, off as int).take(v@.len() as int));
    }
    assert(v@ =~= u32s_from(data@, off as int));
    v
}

/// Where each value of a run of 32-bit values stands.
pub proof fn lemma_be32s(xs: Seq<u32>)
    ensures
        be32s(xs).len() == 4 * xs.len(),
        forall|k: int|
            0 <= k < xs.len() ==> #[trigger] be32s(xs).subrange(4 * k, 4 * k + 4) == wire::be32(xs[k]),
    decreases xs.len(),
{
    if xs.len() > 0 {
        lemma_be32s(xs.drop_last());
        let front = be32s(xs.drop_last());
        let all = be32s(xs);
        assert forall|k: int| 0 <= k < xs.len() implies #[trigger] all.subrange(4 * k, 4 * k + 4)
            == wire::be32(xs[k]) by {
            if k < xs.len() - 1 {
                assert(all.subrange(4 * k, 4 * k + 4) =~= front.subrange(4 * k, 4 * k + 4));
                assert(xs.drop_last()[k] == xs[k]);
            } else {
                assert(all.subrange(4 * k, 4 * k + 4) =~= wire::be32(xs.last()));
            }
        }
    }
}

/// Where each header of a run of headers stands.
pub proof fn lemma_headers_bytes(hs: Seq<LsaV3Header>)
    ensures
        headers_bytes(hs).len() == 20 * hs.len(),
        forall|k: int|
            0 <= k < hs.len() ==> #[trigger] headers_bytes(hs).subrange(20 * k, 20 * k + 20)
                == hs[k].bytes(),
    decreases hs.len(),
{
    if hs.len() > 0 {
        lemma_headers_bytes(hs.drop_last());
        let front = headers_bytes(hs.drop_last());
        let all = headers_bytes(hs);
        assert forall|k: int| 0 <= k < hs.len() implies #[trigger] all.subrange(20 * k, 20 * k + 20)
            == hs[k].bytes() by {
            if k < hs.len() - 1 {
                assert(all.subrange(20 * k, 20 * k + 20) =~= front.subrange(20 * k, 20 * k + 20));
                assert(hs.drop_last()[k] == hs[k]);
            } else {
                assert(all.subrange(20 * k, 20 * k + 20) =~= hs.last().bytes());
            }
        }
    }
}

/// A header in front of headers that are read back is read back too.
proof fn lemma_header_in_front(s: Seq<u8>, at: int, h: LsaV3Header, rest: Seq<LsaV3Header>)
    requires
        0 <= at,
        at + 20 <= s.len(),
        s.subrange(at, at + 20) == h.bytes(),
        headers_from(s, at + 20) == Ok::<Seq<LsaV3Header>, PacketV3Error>(rest),
    ensures
        headers_from(s, at) == Ok::<Seq<LsaV3Header>, PacketV3Error>(seq![h] + rest),
{
    h.lemma_roundtrip(s, at);
}

/// Headers read back from position `20 * k` of a run are the headers from `k` on.
proof fn lemma_headers_tail(hs: Seq<LsaV3Header>, s: Seq<u8>, off: int, k: int)
    requires
        0 <= off <= s.len(),
        0 <= k <= hs.len(),
        s.subrange(off, s.len() as int) == headers_bytes(hs),
    ensures
        headers_from(s, off + 20 * k) == Ok::<Seq<LsaV3Header>, PacketV3Error>(hs.skip(k)),
    decreases hs.len() - k,
{
    lemma_headers_bytes(hs);
    let b = headers_bytes(hs);
    if k == hs.len() {
        assert(hs.skip(k) =~= Seq::empty());
    } else {
        lemma_headers_tail(hs, s, off, k + 1);
        let at = off + 20 * k;
        assert(s.subrange(at, at + 20) =~= b.subrange(20 * k, 20 * k + 20));
        assert(at + 20 == off + 20 * (k + 1));
        lemma_header_in_front(s, at, hs[k], hs.skip(k + 1));
        assert(seq![hs[k]] + hs.skip(k + 1) =~= hs.skip(k));
    }
}

/// A run of headers that ends the packet is read back whole.
pub proof fn lemma_headers_roundtrip(hs: Seq<LsaV3Header>, s: Seq<u8>, off: int)
    requires
        0 <= off <= s.len(),
        s.subrange(off, s.len() as int) == headers_bytes(hs),
    ensures
        headers_from(s, off) == Ok::<Seq<LsaV3Header>, PacketV3Error>(hs),
{
    lemma_headers_tail(hs, s, off, 0);
    assert(hs.skip(0) =~= hs);
}

} // verus!
