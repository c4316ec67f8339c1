//! Hello packets.
use vstd::prelude::*;

use crate::packet::PacketError;
use crate::packet_v3;
use crate::packet_v3::{get_u32s, put_u32s};
use crate::wire;
use crate::wire::{get_u16, get_u32, put_u16, put_u32};

verus! {

/// Octets of a Hello that lists no neighbor.
pub const HELLO_MIN_LEN: usize = 20;

/// The option bits of Hellos, Database Descriptions and LSAs.
#[derive(Clone, Copy, Debug, PartialEq, Eq, Structural)]
pub struct OspfOptions(pub u8);

impl OspfOptions {
    /// The options that we announce: external routes are taken.
    pub open spec fn spec_standard() -> OspfOptions {
        OspfOptions(0x02)
    }

    /// The options that we announce.
    pub fn standard() -> (o: OspfOptions)
        ensures
            o == OspfOptions::spec_standard(),
    {
        OspfOptions(0x02)
    }

    /// Whether external routes are taken.
    pub fn has_e_bit(self) -> (b: bool)
        ensures
            b == (self.0 & 0x02 != 0),
    {
        self.0 & 0x02 != 0
    }
}

/// The body of a Hello.
#[derive(Debug)]
pub struct HelloPacket {
    pub network_mask: u32,
    pub hello_interval: u16,
    pub options: OspfOptions,
    pub router_priority: u8,
    pub router_dead_interval: u32,
    pub designated_router: u32,
    pub backup_designated_router: u32,
    pub neighbors: Vec<u32>,
}

/// What a Hello says.
pub struct HelloView {
    pub network_mask: u32,
    pub hello_interval: u16,
    pub options: OspfOptions,
    pub router_priority: u8,
    pub router_dead_interval: u32,
    pub designated_router: u32,
    pub backup_designated_router: u32,
    pub neighbors: Seq<u32>,
}

impl View for HelloPacket {
    type V = HelloView;

    open spec fn view(&self) -> HelloView {
        HelloView {
            network_mask: self.network_mask,
            hello_interval: self.hello_interval,
            options: self.options,
            router_priority: self.router_priority,
            router_dead_interval: self.router_dead_interval,
            designated_router: self.designated_router,
            backup_designated_router: self.backup_designated_router,
            neighbors: self.neighbors@,
        }
    }
}

impl HelloView {
    /// The octets of the body.
    pub open spec fn bytes(self) -> Seq<u8> {
        wire::be32(self.network_mask) + wire::be16(self.hello_interval) + seq![
            self.options.0,
            self.router_priority,
        ] + wire::be32(self.router_dead_interval) + wire::be32(self.designated_router)
            + wire::be32(self.backup_designated_router) + packet_v3::be32s(self.neighbors)
    }

    /// The Hello whose body is `s`.
    pub open spec fn spec_parse(s: Seq<u8>) -> Result<HelloView, PacketError> {
        if s.len() < HELLO_MIN_LEN {
            Err(PacketError::TooShort { expected: HELLO_MIN_LEN, got: s.len() as usize })
        } else {
            Ok(
                HelloView {
                    network_mask: wire::u32_at(s, 0),
                    hello_interval: wire::u16_at(s, 4),
                    options: OspfOptions(s[6]),
                    router_priority: s[7],
                    router_dead_interval: wire::u32_at(s, 8),
                    designated_router: wire::u32_at(s, 12),
                    backup_designated_router: wire::u32_at(s, 16),
                    neighbors: packet_v3::u32s_from(s, 20),
                },
            )
        }
    }

    /// What `encode` writes, `parse` reads back.
    pub proof fn lemma_roundtrip(self)
        ensures
            HelloView::spec_parse(self.bytes()) == Ok::<HelloView, PacketError>(self),
    {
        let s = self.bytes();
        let n = packet_v3::be32s(self.neighbors);
        packet_v3::lemma_be32s(self.neighbors);
        assert(s.subrange(0, 4) =~= wire::be32(self.network_mask));
        assert(s.subrange(4, 6) =~= wire::be16(self.hello_interval));
        assert(s.subrange(8, 12) =~= wire::be32(self.router_dead_interval));
        assert(s.subrange(12, 16) =~= wire::be32(self.designated_router));
        assert(s.subrange(16, 20) =~= wire::be32(self.backup_designated_router));
        assert(s.subrange(20, s.len() as int) =~= n);
        wire::lemma_be32_inside(s, 0, self.network_mask);
        wire::lemma_be16_inside(s, 4, self.hello_interval);
        wire::lemma_be32_inside(s, 8, self.router_dead_interval);
        wire::lemma_be32_inside(s, 12, self.designated_router);
        wire::lemma_be32_inside(s, 16, self.backup_designated_router);
        assert(packet_v3::u32s_from(s, 20) =~= self.neighbors) by {
            assert forall|k: int| 0 <= k < self.neighbors.len() implies wire::u32_at(s, 20 + 4 * k)
                == self.neighbors[k] by {
                assert(s.subrange(20 + 4 * k, 20 + 4 * k + 4) =~= n.subrange(4 * k, 4 * k + 4));
                wire::lemma_be32_inside(s, 20 + 4 * k, self.neighbors[k]);
            }
        }
    }
}

impl HelloPacket {
    /// Appends the octets of the body.
    pub fn encode(&self, buf: &mut Vec<u8>)
        ensures
            final(buf)@ == old(buf)@ + self@.bytes(),
    {
        put_u32(buf, self.network_mask);
        put_u16(buf, self.hello_interval);
        buf.push(self.options.0);
        buf.push(self.router_priority);
        put_u32(buf, self.router_dead_interval);
        put_u32(buf, self.designated_router);
        put_u32(buf, self.backup_designated_router);
        put_u32s(buf, &self.neighbors);
        assert(buf@ =~= old(buf)@ + self@.bytes());
    }

    /// Reads a Hello body.
    pub fn parse(data: &[u8]) -> (r: Result<HelloPacket, PacketError>)
        ensures
            match (r, HelloView::spec_parse(data@)) {
                (Ok(h), Ok(v)) => h@ == v,
                (Err(e), Err(f)) => e == f,
                _ => false,
            },
    {
        if data.len() < HELLO_MIN_LEN {
            return Err(PacketError::TooShort { expected: HELLO_MIN_LEN, got: data.len() });
        }
        Ok(
            HelloPacket {
                network_mask: get_u32(data, 0),
                hello_interval: get_u16(data, 4),
                options: OspfOptions(data[6]),
                router_priority: data[7],
                router_dead_interval: get_u32(data, 8),
                designated_router: get_u32(data, 12),
                backup_designated_router: get_u32(data, 16),
                neighbors: get_u32s(data, 20),
            },
        )
    }
}

} // verus!
