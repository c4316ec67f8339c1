//! OSPFv2 LSAs.
use vstd::prelude::*;

use crate::packet::checksum;
use crate::packet::checksum::fletcher16;
use crate::packet::PacketError;
use crate::packet_v3;
use crate::packet_v3::{get_u32s, put_u32s};
use crate::wire;
use crate::wire::{
    copy_range, from_bits, get_u16, get_u24, get_u32, put_u16, put_u24, put_u32, to_bits,
};

verus! {

/// Octets of an LSA header.
pub const LSA_HEADER_LEN: usize = 20;

/// Age at which an LSA is withdrawn, in seconds.
pub const MAX_AGE: u16 = 3600;

/// Ages that differ by more than this many seconds tell instances apart.
pub const MAX_AGE_DIFF: u16 = 900;

/// Sequence number of the first instance of an LSA.
pub const INITIAL_SEQUENCE_NUMBER: i32 = -0x7fffffff;

/// Router-LSA flag of an area border router.
pub const B_FLAG: u8 = 0x01;

/// Router-LSA flag of an AS boundary router.
pub const E_FLAG: u8 = 0x02;

/// The LSA types.
#[derive(Clone, Copy, Debug, PartialEq, Eq, Structural)]
pub enum LsaType {
    Router,
    Network,
    SummaryNetwork,
    SummaryAsbr,
    AsExternal,
}

impl LsaType {
    /// The number that stands for the type on the wire.
    pub open spec fn spec_code(self) -> u8 {
        match self {
            LsaType::Router => 1,
            LsaType::Network => 2,
            LsaType::SummaryNetwork => 3,
            LsaType::SummaryAsbr => 4,
            LsaType::AsExternal => 5,
        }
    }

    /// The type that `c` stands for.
    pub open spec fn spec_from_code(c: u8) -> Option<LsaType> {
        if c == 1 {
            Some(LsaType::Router)
        } else if c == 2 {
            Some(LsaType::Network)
        } else if c == 3 {
            Some(LsaType::SummaryNetwork)
        } else if c == 4 {
            Some(LsaType::SummaryAsbr)
        } else if c == 5 {
            Some(LsaType::AsExternal)
        } else {
            None
        }
    }

    /// The number that stands for the type on the wire.
    pub fn code(self) -> (c: u8)
        ensures
            c == self.spec_code(),
    {
        match self {
            LsaType::Router => 1,
            LsaType::Network => 2,
            LsaType::SummaryNetwork => 3,
            LsaType::SummaryAsbr => 4,
            LsaType::AsExternal => 5,
        }
    }

    /// The type that `c` stands for.
    pub fn from_code(c: u8) -> (t: Option<LsaType>)
        ensures
            t == LsaType::spec_from_code(c),
    {
        if c == 1 {
            Some(LsaType::Router)
        } else if c == 2 {
            Some(LsaType::Network)
        } else if c == 3 {
            Some(LsaType::SummaryNetwork)
        } else if c == 4 {
            Some(LsaType::SummaryAsbr)
        } else if c == 5 {
            Some(LsaType::AsExternal)
        } else {
            None
        }
    }
}

/// What identifies an LSA in a database.
#[derive(Clone, Copy, Debug, PartialEq, Eq, Structural)]
pub struct LsaKey {
    pub ls_type: LsaType,
    pub link_state_id: u32,
    pub advertising_router: u32,
}

/// Which of two instances of an LSA is newer.
#[derive(Clone, Copy, Debug, PartialEq, Eq, Structural)]
pub enum Recency {
    Newer,
    Same,
    Older,
}

/// The header of every LSA.
#[derive(Clone, Copy, Debug, PartialEq, Eq, Structural)]
pub struct LsaHeader {
    pub ls_age: u16,
    pub options: u8,
    pub ls_type: LsaType,
    pub link_state_id: u32,
    pub advertising_router: u32,
    pub ls_sequence_number: i32,
    pub ls_checksum: u16,
    pub length: u16,
}

impl LsaHeader {
    /// The key of the LSA.
    pub open spec fn spec_key(self) -> LsaKey {
        LsaKey {
            ls_type: self.ls_type,
            link_state_id: self.link_state_id,
            advertising_router: self.advertising_router,
        }
    }

    /// How this instance compares to `other`: by sequence number, then by
    /// checksum, then by whether one reached the maximal age, then by age if the ages differ enough.
    pub open spec fn recency(self, other: LsaHeader) -> Recency {
        if self.ls_sequence_number != other.ls_sequence_number {
            if self.ls_sequence_number > other.ls_sequence_number {
                Recency::Newer
            } else {
                Recency::Older
            }
        } else if self.ls_checksum != other.ls_checksum {
            if self.ls_checksum > other.ls_checksum {
                Recency::Newer
            } else {
                Recency::Older
            }
        } else if (self.ls_age >= MAX_AGE) != (other.ls_age >= MAX_AGE) {
            if self.ls_age >= MAX_AGE {
                Recency::Newer
            } else {
                Recency::Older
            }
        } else if self.ls_age + MAX_AGE_DIFF < other.ls_age {
            Recency::Newer
        } else if other.ls_age + MAX_AGE_DIFF < self.ls_age {
            Recency::Older
        } else {
            Recency::Same
        }
    }

    /// The twenty octets of the header.
    pub open spec fn bytes(self) -> Seq<u8> {
        wire::be16(self.ls_age) + seq![self.options, self.ls_type.spec_code()] + wire::be32(
            self.link_state_id,
        ) + wire::be32(self.advertising_router) + wire::be32(
            wire::i32_bits(self.ls_sequence_number),
        ) + wire::be16(self.ls_checksum) + wire::be16(self.length)
    }

    /// The header whose octets start at `off`, which twenty octets follow.
    pub open spec fn spec_at(s: Seq<u8>, off: int) -> Result<LsaHeader, PacketError> {
        match LsaType::spec_from_code(s[off + 3]) {
            None => Err(PacketError::UnknownLsaType(s[off + 3])),
            Some(t) => Ok(
                LsaHeader {
                    ls_age: wire::u16_at(s, off),
                    options: s[off + 2],
                    ls_type: t,
                    link_state_id: wire::u32_at(s, off + 4),
                    advertising_router: wire::u32_at(s, off + 8),
                    ls_sequence_number: wire::bits_i32(wire::u32_at(s, off + 12)),
                    ls_checksum: wire::u16_at(s, off + 16),
                    length: wire::u16_at(s, off + 18),
                },
            ),
        }
    }

    /// The key of the LSA.
    pub fn key(&self) -> (k: LsaKey)
        ensures
            k == self.spec_key(),
    {
        LsaKey {
            ls_type: self.ls_type,
            link_state_id: self.link_state_id,
            advertising_router: self.advertising_router,
        }
    }

    /// How this instance compares to `other`.
    pub fn is_more_recent_than(&self, other: &LsaHeader) -> (r: Recency)
        ensures
            r == self.recency(*other),
    {
        if self.ls_sequence_number != other.ls_sequence_number {
            if self.ls_sequence_number > other.ls_sequence_number {
                Recency::Newer
            } else {
                Recency::Older
            }
        } else if self.ls_checksum != other.ls_checksum {
            if self.ls_checksum > other.ls_checksum {
                Recency::Newer
            } else {
                Recency::Older
            }
        } else if (self.ls_age >= MAX_AGE) != (other.ls_age >= MAX_AGE) {
            if self.ls_age >= MAX_AGE {
                Recency::Newer
            } else {
                Recency::Older
            }
        } else if (self.ls_age as u32) + (MAX_AGE_DIFF as u32) < other.ls_age as u32 {
            Recency::Newer
        } else if (other.ls_age as u32) + (MAX_AGE_DIFF as u32) < self.ls_age as u32 {
            Recency::Older
        } else {
            Recency::Same
        }
    }

    /// Reads the header at `off`.
    pub fn parse_at(data: &[u8], off: usize) -> (r: Result<LsaHeader, PacketError>)
        requires
            off + LSA_HEADER_LEN <= data@.len(),
        ensures
            r == LsaHeader::spec_at(data@, off as int),
    {
        let _total: usize = data.len();
        match LsaType::from_code(data[off + 3]) {
            None => Err(PacketError::UnknownLsaType(data[off + 3])),
            Some(t) => Ok(
                LsaHeader {
                    ls_age: get_u16(data, off),
                    options: data[off + 2],
                    ls_type: t,
                    link_state_id: get_u32(data, off + 4),
                    advertising_router: get_u32(data, off + 8),
                    ls_sequence_number: from_bits(get_u32(data, off + 12)),
                    ls_checksum: get_u16(data, off + 16),
                    length: get_u16(data, off + 18),
                },
            ),
        }
    }

    /// Appends the octets of the header.
    pub fn encode(&self, buf: &mut Vec<u8>)
        ensures
            final(buf)@ == old(buf)@ + self.bytes(),
    {
        put_u16(buf, self.ls_age);
        buf.push(self.options);
        buf.push(self.ls_type.code());
        put_u32(buf, self.link_state_id);
        put_u32(buf, self.advertising_router);
        put_u32(buf, to_bits(self.ls_sequence_number));
        put_u16(buf, self.ls_checksum);
        put_u16(buf, self.length);
        assert(buf@ =~= old(buf)@ + self.bytes());
    }

    /// Two instances compare in opposite ways seen from either side, and an instance is the same as
    /// itself.
    pub proof fn lemma_recency_antisymmetric(self, other: LsaHeader)
        ensures
            self.recency(other) == Recency::Newer <==> other.recency(self) == Recency::Older,
            self.recency(other) == Recency::Same <==> other.recency(self) == Recency::Same,
            self.recency(self) == Recency::Same,
    {
    }
}

/// The octets of the headers, one after the other.
pub open spec fn headers_bytes(hs: Seq<LsaHeader>) -> Seq<u8>
    decreases hs.len(),
{
    if hs.len() == 0 {
        Seq::empty()
    } else {
        headers_bytes(hs.drop_last()) + hs.last().bytes()
    }
}

/// The headers from `off` on; fewer than twenty octets at the end are ignored.
pub open spec fn headers_from(s: Seq<u8>, off: int) -> Result<Seq<LsaHeader>, PacketError>
    decreases s.len() - off,
{
    if off + LSA_HEADER_LEN > s.len() {
        Ok(Seq::empty())
    } else {
        match LsaHeader::spec_at(s, off) {
            Err(e) => Err(e),
            Ok(h) => match headers_from(s, off + LSA_HEADER_LEN) {
                Err(e) => Err(e),
                Ok(rest) => Ok(seq![h] + rest),
            },
        }
    }
}

/// Appends the octets of the headers.
pub fn put_headers(buf: &mut Vec<u8>, hs: &Vec<LsaHeader>)
    ensures
        final(buf)@ == old(buf)@ + headers_bytes(hs@),
{
    let mut i: usize = 0;
    assert(hs@.take(0) =~= Seq::empty());
    assert(buf@ =~= old(buf)@ + headers_bytes(hs@.take(0)));
    while i < hs.len()
        invariant
            i <= hs@.len(),
            buf@ == old(buf)@ + headers_bytes(hs@.take(i as int)),
        decreases hs.len() - i,
    {
        hs[i].encode(buf);
        assert(hs@.take(i + 1).drop_last() =~= hs@.take(i as int));
        i = i + 1;
        assert(buf@ =~= old(buf)@ + headers_bytes(hs@.take(i as int)));
    }
    assert(hs@.take(i as int) =~= hs@);
}

/// Reads the headers from `off` on.
pub fn get_headers(data: &[u8], off: usize) -> (r: Result<Vec<LsaHeader>, PacketError>)
    requires
        off <= data@.len(),
    ensures
        match (r, headers_from(data@, off as int)) {
            (Ok(v), Ok(hs)) => v@ == hs,
            (Err(e), Err(f)) => e == f,
            _ => false,
        },
{
    let mut v: Vec<LsaHeader> = Vec::new();
    let mut i: usize = off;
    let ghost all = headers_from(data@, off as int);
    assert(all matches Ok(hs) ==> hs =~= v@ + hs);
    while data.len() - i >= LSA_HEADER_LEN
        invariant
            off <= i <= data@.len(),
            match (all, headers_from(data@, i as int)) {
                (Ok(hs), Ok(rest)) => hs == v@ + rest,
                (Err(e), Err(f)) => e == f,
                _ => false,
            },
            all == headers_from(data@, off as int),
        decreases data.len() - i,
    {
        match LsaHeader::parse_at(data, i) {
            Err(e) => {
                return Err(e);
            },
            Ok(h) => {
                let ghost before = v@;
                v.push(h);
                i = i + LSA_HEADER_LEN;
                proof {
                    match headers_from(data@, i as int) {
                        Ok(rest) => {
                            assert(before + (seq![h] + rest) =~= v@ + rest);
                        },
                        Err(_) => {},
                    }
                }
            },
        }
    }
    assert(v@ + Seq::<LsaHeader>::empty() =~= v@);
    Ok(v)
}

/// The kinds of links of a Router-LSA.
#[derive(Clone, Copy, Debug, PartialEq, Eq, Structural)]
pub enum RouterLinkType {
    PointToPoint,
    TransitNetwork,
    StubNetwork,
    VirtualLink,
}

impl RouterLinkType {
    /// The number that stands for the kind on the wire.
    pub open spec fn spec_code(self) -> u8 {
        match self {
            RouterLinkType::PointToPoint => 1,
            RouterLinkType::TransitNetwork => 2,
            RouterLinkType::StubNetwork => 3,
            RouterLinkType::VirtualLink => 4,
        }
    }

    /// The kind that `c` stands for.
    pub open spec fn spec_from_code(c: u8) -> Option<RouterLinkType> {
        if c == 1 {
            Some(RouterLinkType::PointToPoint)
        } else if c == 2 {
            Some(RouterLinkType::TransitNetwork)
        } else if c == 3 {
            Some(RouterLinkType::StubNetwork)
        } else if c == 4 {
            Some(RouterLinkType::VirtualLink)
        } else {
            None
        }
    }

    /// The number that stands for the kind on the wire.
    pub fn code(self) -> (c: u8)
        ensures
            c == self.spec_code(),
    {
        match self {
            RouterLinkType::PointToPoint => 1,
            RouterLinkType::TransitNetwork => 2,
            RouterLinkType::StubNetwork => 3,
            RouterLinkType::VirtualLink => 4,
        }
    }

    /// The kind that `c` stands for.
    pub fn from_code(c: u8) -> (t: Option<RouterLinkType>)
        ensures
            t == RouterLinkType::spec_from_code(c),
    {
        if c == 1 {
            Some(RouterLinkType::PointToPoint)
        } else if c == 2 {
            Some(RouterLinkType::TransitNetwork)
        } else if c == 3 {
            Some(RouterLinkType::StubNetwork)
        } else if c == 4 {
            Some(RouterLinkType::VirtualLink)
        } else {
            None
        }
    }
}

/// One link of a Router-LSA. Metrics per type of service are not kept.
#[derive(Clone, Copy, Debug, PartialEq, Eq, Structural)]
pub struct RouterLink {
    pub link_id: u32,
    pub link_data: u32,
    pub link_type: RouterLinkType,
    pub num_tos: u8,
    pub metric: u16,
}

impl RouterLink {
    /// The twelve octets of the link.
    pub open spec fn bytes(self) -> Seq<u8> {
        wire::be32(self.link_id) + wire::be32(self.link_data) + seq![
            self.link_type.spec_code(),
            0u8,
        ] + wire::be16(self.metric)
    }
}

/// The octets of the links, one after the other.
pub open spec fn links_bytes(ls: Seq<RouterLink>) -> Seq<u8>
    decreases ls.len(),
{
    if ls.len() == 0 {
        Seq::empty()
    } else {
        links_bytes(ls.drop_last()) + ls.last().bytes()
    }
}

/// `n` links from `off` on; the metrics per type of service are passed over.
pub open spec fn links_from(s: Seq<u8>, off: int, n: nat) -> Result<Seq<RouterLink>, PacketError>
    decreases n,
{
    if n == 0 {
        Ok(Seq::empty())
    } else if off + 12 > s.len() {
        Err(PacketError::TooShort { expected: 12, got: (s.len() - off) as usize })
    } else {
        match RouterLinkType::spec_from_code(s[off + 8]) {
            None => Err(PacketError::UnknownLinkType(s[off + 8])),
            Some(t) => {
                let next = off + 12 + 4 * s[off + 9];
                if next > s.len() {
                    Err(
                        PacketError::TooShort {
                            expected: (12 + 4 * s[off + 9]) as usize,
                            got: (s.len() - off) as usize,
                        },
                    )
                } else {
                    match links_from(s, next, (n - 1) as nat) {
                        Err(e) => Err(e),
                        Ok(rest) => Ok(
                            seq![
                                RouterLink {
                                    link_id: wire::u32_at(s, off),
                                    link_data: wire::u32_at(s, off + 4),
                                    link_type: t,
                                    num_tos: 0,
                                    metric: wire::u16_at(s, off + 10),
                                },
                            ] + rest,
                        ),
                    }
                }
            },
        }
    }
}

/// The body of a Router-LSA.
#[derive(Debug)]
pub struct RouterLsa {
    pub flags: u8,
    pub links: Vec<RouterLink>,
}

/// The body of a Network-LSA.
#[derive(Debug)]
pub struct NetworkLsa {
    pub network_mask: u32,
    pub attached_routers: Vec<u32>,
}

/// The body of a Summary-LSA.
#[derive(Clone, Copy, Debug, PartialEq, Eq, Structural)]
pub struct SummaryLsa {
    pub network_mask: u32,
    pub metric: u32,
}

/// The body of an AS-external-LSA.
#[derive(Clone, Copy, Debug, PartialEq, Eq, Structural)]
pub struct AsExternalLsa {
    pub network_mask: u32,
    pub metric_type_2: bool,
    pub metric: u32,
    pub forwarding_address: u32,
    pub external_route_tag: u32,
}

/// The body of an LSA.
#[derive(Debug)]
pub enum LsaBody {
    Router(RouterLsa),
    Network(NetworkLsa),
    Summary(SummaryLsa),
    AsExternal(AsExternalLsa),
}

/// What the body of an LSA says.
pub enum LsaBodyView {
    Router { flags: u8, links: Seq<RouterLink> },
    Network { network_mask: u32, attached_routers: Seq<u32> },
    Summary(SummaryLsa),
    AsExternal(AsExternalLsa),
}

impl View for LsaBody {
    type V = LsaBodyView;

    open spec fn view(&self) -> LsaBodyView {
        match self {
            LsaBody::Router(r) => LsaBodyView::Router { flags: r.flags, links: r.links@ },
            LsaBody::Network(n) => LsaBodyView::Network {
                network_mask: n.network_mask,
                attached_routers: n.attached_routers@,
            },
            LsaBody::Summary(s) => LsaBodyView::Summary(*s),
            LsaBody::AsExternal(e) => LsaBodyView::AsExternal(*e),
        }
    }
}

/// An LSA.
#[derive(Debug)]
pub struct Lsa {
    pub header: LsaHeader,
    pub body: LsaBody,
}

/// What an LSA says.
pub struct LsaView {
    pub header: LsaHeader,
    pub body: LsaBodyView,
}

impl View for Lsa {
    type V = LsaView;

    open spec fn view(&self) -> LsaView {
        LsaView { header: self.header, body: self.body@ }
    }
}

impl LsaBodyView {
    /// The octets of the body.
    pub open spec fn bytes(self) -> Seq<u8> {
        match self {
            LsaBodyView::Router { flags, links } => seq![flags, 0u8] + wire::be16(
                (links.len() % 65536) as u16,
            ) + links_bytes(links),
            LsaBodyView::Network { network_mask, attached_routers } => wire::be32(network_mask)
                + packet_v3::be32s(attached_routers),
            LsaBodyView::Summary(s) => wire::be32(s.network_mask) + seq![0u8] + wire::be24(
                s.metric,
            ),
            LsaBodyView::AsExternal(e) => wire::be32(e.network_mask) + seq![
                if e.metric_type_2 {
                    0x80u8
                } else {
                    0u8
                },
            ] + wire::be24(e.metric) + wire::be32(e.forwarding_address) + wire::be32(
                e.external_route_tag,
            ),
        }
    }

    /// The body as its octets are read back: metrics of 24 bits, no metrics per type of service.
    pub open spec fn carried(self) -> LsaBodyView {
        match self {
            LsaBodyView::Router { flags, links } => LsaBodyView::Router {
                flags,
                links: Seq::new(
                    links.len(),
                    |i: int| RouterLink { num_tos: 0, ..links[i] },
                ),
            },
            LsaBodyView::Network { network_mask, attached_routers } => self,
            LsaBodyView::Summary(s) => LsaBodyView::Summary(
                SummaryLsa { metric: s.metric % 0x1000000, ..s },
            ),
            LsaBodyView::AsExternal(e) => LsaBodyView::AsExternal(
                AsExternalLsa { metric: e.metric % 0x1000000, ..e },
            ),
        }
    }

    /// The body of an LSA of the given type whose octets are `s`.
    pub open spec fn spec_parse(t: LsaType, s: Seq<u8>) -> Result<LsaBodyView, PacketError> {
        match t {
            LsaType::Router => if s.len() < 4 {
                Err(PacketError::TooShort { expected: 4, got: s.len() as usize })
            } else {
                match links_from(s, 4, wire::u16_at(s, 2) as nat) {
                    Err(e) => Err(e),
                    Ok(links) => Ok(LsaBodyView::Router { flags: s[0], links }),
                }
            },
            LsaType::Network => if s.len() < 4 {
                Err(PacketError::TooShort { expected: 4, got: s.len() as usize })
            } else {
                Ok(
                    LsaBodyView::Network {
                        network_mask: wire::u32_at(s, 0),
                        attached_routers: packet_v3::u32s_from(s, 4),
                    },
                )
            },
            LsaType::SummaryNetwork | LsaType::SummaryAsbr => if s.len() < 8 {
                Err(PacketError::TooShort { expected: 8, got: s.len() as usize })
            } else {
                Ok(
                    LsaBodyView::Summary(
                        SummaryLsa {
                            network_mask: wire::u32_at(s, 0),
                            metric: wire::u24_at(s, 5),
                        },
                    ),
                )
            },
            LsaType::AsExternal => if s.len() < 16 {
                Err(PacketError::TooShort { expected: 16, got: s.len() as usize })
            } else {
                Ok(
                    LsaBodyView::AsExternal(
                        AsExternalLsa {
                            network_mask: wire::u32_at(s, 0),
                            metric_type_2: s[4] >= 128,
                            metric: wire::u24_at(s, 5),
                            forwarding_address: wire::u32_at(s, 8),
                            external_route_tag: wire::u32_at(s, 12),
                        },
                    ),
                )
            },
        }
    }
}

impl LsaView {
    /// The octets with the checksum field cleared.
    pub open spec fn blank(self) -> Seq<u8> {
        (LsaHeader { ls_checksum: 0, ..self.header }).bytes() + self.body.bytes()
    }

    /// The checksum octets.
    pub open spec fn checksum(self) -> (u8, u8) {
        checksum::fletcher_octets(self.blank().skip(2), 14)
    }

    /// The octets of the LSA, with its checksum.
    pub open spec fn bytes(self) -> Seq<u8> {
        self.blank().update(16, self.checksum().0).update(17, self.checksum().1)
    }

    /// The LSA as its octets are read back: with its checksum and the values that the fields carry.
    pub open spec fn sealed(self) -> LsaView {
        LsaView {
            header: LsaHeader {
                ls_checksum: (self.checksum().0 * 256 + self.checksum().1) as u16,
                ..self.header
            },
            body: self.body.carried(),
        }
    }

    /// The LSA that `s` holds.
    pub open spec fn spec_parse(s: Seq<u8>) -> Result<LsaView, PacketError> {
        if s.len() < LSA_HEADER_LEN {
            Err(PacketError::TooShort { expected: LSA_HEADER_LEN, got: s.len() as usize })
        } else {
            match LsaHeader::spec_at(s, 0) {
                Err(e) => Err(e),
                Ok(header) => match LsaBodyView::spec_parse(
                    header.ls_type,
                    s.skip(LSA_HEADER_LEN as int),
                ) {
                    Err(e) => Err(e),
                    Ok(body) => Ok(LsaView { header, body }),
                },
            }
        }
    }
}

/// A copy of the links.
pub fn copy_links(ls: &Vec<RouterLink>) -> (r: Vec<RouterLink>)
    ensures
        r@ == ls@,
{
    let mut v: Vec<RouterLink> = Vec::new();
    let mut i: usize = 0;
    while i < ls.len()
        invariant
            i <= ls@.len(),
            v@ == ls@.take(i as int),
        decreases ls.len() - i,
    {
        v.push(ls[i]);
        i = i + 1;
        assert(v@ =~= ls@.take(i as int));
    }
    assert(v@ =~= ls@);
    v
}

/// A copy of the values.
pub fn copy_u32s(xs: &Vec<u32>) -> (r: Vec<u32>)
    ensures
        r@ == xs@,
{
    let mut v: Vec<u32> = Vec::new();
    let mut i: usize = 0;
    while i < xs.len()
        invariant
            i <= xs@.len(),
            v@ == xs@.take(i as int),
        decreases xs.len() - i,
    {
        v.push(xs[i]);
        i = i + 1;
        assert(v@ =~= xs@.take(i as int));
    }
    assert(v@ =~= xs@);
    v
}

/// Appends the octets of the links.
fn put_links(buf: &mut Vec<u8>, ls: &Vec<RouterLink>)
    ensures
        final(buf)@ == old(buf)@ + links_bytes(ls@),
{
    let ghost start = buf@;
    let mut i: usize = 0;
    assert(ls@.take(0) =~= Seq::empty());
    assert(buf@ =~= start + links_bytes(ls@.take(0)));
    while i < ls.len()
        invariant
            i <= ls@.len(),
            buf@ == start + links_bytes(ls@.take(i as int)),
        decreases ls.len() - i,
    {
        let ghost before = buf@;
        put_u32(buf, ls[i].link_id);
        put_u32(buf, ls[i].link_data);
        buf.push(ls[i].link_type.code());
        buf.push(0);
        put_u16(buf, ls[i].metric);
        assert(buf@ =~= before + ls@[i as int].bytes());
        assert(ls@.take(i + 1).drop_last() =~= ls@.take(i as int));
        i = i + 1;
        assert(buf@ =~= start + links_bytes(ls@.take(i as int)));
    }
    assert(ls@.take(i as int) =~= ls@);
}

/// Reads `n` links from `off` on.
fn get_links(data: &[u8], off: usize, n: u16) -> (r: Result<Vec<RouterLink>, PacketError>)
    requires
        off <= data@.len(),
    ensures
        match (r, links_from(data@, off as int, n as nat)) {
            (Ok(v), Ok(ls)) => v@ == ls,
            (Err(e), Err(f)) => e == f,
            _ => false,
        },
{
    let mut v: Vec<RouterLink> = Vec::new();
    let mut i: usize = off;
    let mut left: u16 = n;
    let ghost all = links_from(data@, off as int, n as nat);
    assert(all matches Ok(hs) ==> hs =~= v@ + hs);
    while left > 0
        invariant
            i <= data@.len(),
            match (all, links_from(data@, i as int, left as nat)) {
                (Ok(hs), Ok(rest)) => hs == v@ + rest,
                (Err(e), Err(f)) => e == f,
                _ => false,
            },
            all == links_from(data@, off as int, n as nat),
        decreases left,
    {
        let total: usize = data.len();
        if total - i < 12 {
            return Err(PacketError::TooShort { expected: 12, got: total - i });
        }
        match RouterLinkType::from_code(data[i + 8]) {
            None => {
                return Err(PacketError::UnknownLinkType(data[i + 8]));
            },
            Some(t) => {
                let size: usize = 12 + 4 * (data[i + 9] as usize);
                if total - i < size {
                    return Err(PacketError::TooShort { expected: size, got: total - i });
                }
                let link = RouterLink {
                    link_id: get_u32(data, i),
                    link_data: get_u32(data, i + 4),
                    link_type: t,
                    num_tos: 0,
                    metric: get_u16(data, i + 10),
                };
                let ghost before = v@;
                v.push(link);
                i = i + size;
                left = left - 1;
                proof {
                    match links_from(data@, i as int, left as nat) {
                        Ok(rest) => {
                            assert(before + (seq![link] + rest) =~= v@ + rest);
                        },
                        Err(_) => {},
                    }
                }
            },
        }
    }
    assert(v@ + Seq::<RouterLink>::empty() =~= v@);
    Ok(v)
}

impl LsaBody {
    /// A copy of the body.
    pub fn duplicate(&self) -> (r: LsaBody)
        ensures
            r@ == self@,
    {
        match self {
            LsaBody::Router(x) => LsaBody::Router(
                RouterLsa { flags: x.flags, links: copy_links(&x.links) },
            ),
            LsaBody::Network(x) => LsaBody::Network(
                NetworkLsa {
                    network_mask: x.network_mask,
                    attached_routers: copy_u32s(&x.attached_routers),
                },
            ),
            LsaBody::Summary(x) => LsaBody::Summary(*x),
            LsaBody::AsExternal(x) => LsaBody::AsExternal(*x),
        }
    }

    /// Appends the octets of the body.
    pub fn encode(&self, buf: &mut Vec<u8>)
        ensures
            final(buf)@ == old(buf)@ + self@.bytes(),
    {
        match self {
            LsaBody::Router(x) => {
                buf.push(x.flags);
                buf.push(0);
                put_u16(buf, (x.links.len() % 65536) as u16);
                put_links(buf, &x.links);
            },
            LsaBody::Network(x) => {
                put_u32(buf, x.network_mask);
                put_u32s(buf, &x.attached_routers);
            },
            LsaBody::Summary(x) => {
                put_u32(buf, x.network_mask);
                buf.push(0);
                put_u24(buf, x.metric);
            },
            LsaBody::AsExternal(x) => {
                put_u32(buf, x.network_mask);
                let e: u8 = if x.metric_type_2 {
                    0x80
                } else {
                    0
                };
                buf.push(e);
                put_u24(buf, x.metric);
                put_u32(buf, x.forwarding_address);
                put_u32(buf, x.external_route_tag);
            },
        }
        assert(buf@ =~= old(buf)@ + self@.bytes());
    }

    /// Reads the body of an LSA of the given type.
    pub fn parse(t: LsaType, data: &[u8]) -> (r: Result<LsaBody, PacketError>)
        ensures
            match (r, LsaBodyView::spec_parse(t, data@)) {
                (Ok(b), Ok(v)) => b@ == v,
                (Err(e), Err(f)) => e == f,
                _ => false,
            },
    {
        match t {
            LsaType::Router => {
                if data.len() < 4 {
                    return Err(PacketError::TooShort { expected: 4, got: data.len() });
                }
                match get_links(data, 4, get_u16(data, 2)) {
                    Err(e) => Err(e),
                    Ok(links) => Ok(LsaBody::Router(RouterLsa { flags: data[0], links })),
                }
            },
            LsaType::Network => {
                if data.len() < 4 {
                    return Err(PacketError::TooShort { expected: 4, got: data.len() });
                }
                Ok(
                    LsaBody::Network(
                        NetworkLsa {
                            network_mask: get_u32(data, 0),
                            attached_routers: get_u32s(data, 4),
                        },
                    ),
                )
            },
            LsaType::SummaryNetwork | LsaType::SummaryAsbr => {
                if data.len() < 8 {
                    return Err(PacketError::TooShort { expected: 8, got: data.len() });
                }
                Ok(
                    LsaBody::Summary(
                        SummaryLsa { network_mask: get_u32(data, 0), metric: get_u24(data, 5) },
                    ),
                )
            },
            LsaType::AsExternal => {
                if data.len() < 16 {
                    return Err(PacketError::TooShort { expected: 16, got: data.len() });
                }
                Ok(
                    LsaBody::AsExternal(
                        AsExternalLsa {
                            network_mask: get_u32(data, 0),
                            metric_type_2: data[4] >= 128,
                            metric: get_u24(data, 5),
                            forwarding_address: get_u32(data, 8),
                            external_route_tag: get_u32(data, 12),
                        },
                    ),
                )
            },
        }
    }

    /// The body as its octets are read back.
    fn carried(self) -> (r: LsaBody)
        ensures
            r@ == self@.carried(),
    {
        match self {
            LsaBody::Router(x) => {
                let mut v: Vec<RouterLink> = Vec::new();
                let ghost want = Seq::new(
                    x.links@.len(),
                    |i: int| RouterLink { num_tos: 0, ..x.links@[i] },
                );
                let mut i: usize = 0;
                while i < x.links.len()
                    invariant
                        i <= x.links@.len(),
                        want == Seq::new(
                            x.links@.len(),
                            |i: int| RouterLink { num_tos: 0, ..x.links@[i] },
                        ),
                        v@ == want.take(i as int),
                    decreases x.links.len() - i,
                {
                    let mut l = x.links[i];
                    l.num_tos = 0;
                    v.push(l);
                    i = i + 1;
                    assert(v@ =~= want.take(i as int));
                }
                assert(v@ =~= want);
                LsaBody::Router(RouterLsa { flags: x.flags, links: v })
            },
            LsaBody::Network(x) => LsaBody::Network(x),
            LsaBody::Summary(x) => LsaBody::Summary(
                SummaryLsa { network_mask: x.network_mask, metric: x.metric % 0x1000000 },
            ),
            LsaBody::AsExternal(x) => LsaBody::AsExternal(
                AsExternalLsa {
                    network_mask: x.network_mask,
                    metric_type_2: x.metric_type_2,
                    metric: x.metric % 0x1000000,
                    forwarding_address: x.forwarding_address,
                    external_route_tag: x.external_route_tag,
                },
            ),
        }
    }
}

impl Lsa {
    /// The key of the LSA.
    pub fn key(&self) -> (k: LsaKey)
        ensures
            k == self@.header.spec_key(),
    {
        self.header.key()
    }

    /// A copy of the LSA.
    pub fn duplicate(&self) -> (r: Lsa)
        ensures
            r@ == self@,
    {
        Lsa { header: self.header, body: self.body.duplicate() }
    }

    /// The octets with the checksum field cleared.
    fn blank_bytes(&self) -> (r: Vec<u8>)
        ensures
            r@ == self@.blank(),
    {
        let mut h = self.header;
        h.ls_checksum = 0;
        let mut buf: Vec<u8> = Vec::new();
        h.encode(&mut buf);
        assert(Seq::<u8>::empty() + h.bytes() =~= h.bytes());
        self.body.encode(&mut buf);
        buf
    }

    /// The checksum octets.
    fn checksum_octets(&self) -> (c: (u8, u8))
        ensures
            c == self@.checksum(),
    {
        let blank = self.blank_bytes();
        proof {
            lemma_header_len(LsaHeader { ls_checksum: 0, ..self.header });
        }
        let tail = copy_range(blank.as_slice(), 2, blank.len());
        assert(tail@ =~= self@.blank().skip(2));
        fletcher16(tail.as_slice(), 14)
    }

    /// The octets of the LSA, with its checksum.
    pub fn encode(&self) -> (r: Vec<u8>)
        ensures
            r@ == self@.bytes(),
    {
        let c = self.checksum_octets();
        let mut buf = self.blank_bytes();
        proof {
            lemma_header_len(LsaHeader { ls_checksum: 0, ..self.header });
        }
        buf.set(16, c.0);
        buf.set(17, c.1);
        buf
    }

    /// Reads an LSA.
    pub fn parse(data: &[u8]) -> (r: Result<Lsa, PacketError>)
        ensures
            match (r, LsaView::spec_parse(data@)) {
                (Ok(l), Ok(v)) => l@ == v,
                (Err(e), Err(f)) => e == f,
                _ => false,
            },
    {
        if data.len() < LSA_HEADER_LEN {
            return Err(PacketError::TooShort { expected: LSA_HEADER_LEN, got: data.len() });
        }
        let header = match LsaHeader::parse_at(data, 0) {
            Err(e) => {
                return Err(e);
            },
            Ok(h) => h,
        };
        let body = copy_range(data, LSA_HEADER_LEN, data.len());
        assert(body@ =~= data@.skip(LSA_HEADER_LEN as int));
        match LsaBody::parse(header.ls_type, body.as_slice()) {
            Err(e) => Err(e),
            Ok(b) => Ok(Lsa { header, body: b }),
        }
    }

    /// The LSA with its checksum filled in, as a receiver of its octets reads it.
    pub fn seal(self) -> (r: Lsa)
        ensures
            r@ == self@.sealed(),
    {
        let c = self.checksum_octets();
        let mut header = self.header;
        header.ls_checksum = (c.0 as u16) * 256 + c.1 as u16;
        Lsa { header, body: self.body.carried() }
    }
}

/// A header is twenty octets long.
pub proof fn lemma_header_len(h: LsaHeader)
    ensures
        h.bytes().len() == LSA_HEADER_LEN,
{
}

/// An LSA leaves with a checksum that verifies: the Fletcher sums over everything but the age
/// vanish.
pub proof fn lemma_encoded_checksum_verifies(l: LsaView)
    ensures
        checksum::fletcher_sums(l.bytes().skip(2)) == (0int, 0int),
{
    let blank = l.blank();
    lemma_header_len(LsaHeader { ls_checksum: 0, ..l.header });
    checksum::lemma_fletcher_verifies(blank.skip(2), 14);
    let c = l.checksum();
    assert(l.bytes().skip(2) =~= blank.skip(2).update(14, c.0).update(15, c.1));
}

} // verus!
