//! OSPFv3 packets at the boundary of the protocol logic.
use vstd::prelude::*;

use crate::wire::copy_range;

verus! {

/// A received OSPFv3 packet.
#[derive(Debug)]
pub struct RxPacketV3 {
    pub sw_if_index: u32,
    pub src_addr: u128,
    pub dst_addr: u128,
    /// The packet from its OSPFv3 header on.
    pub data: Vec<u8>,
}

/// What a received packet says.
pub struct RxPacketV3View {
    pub sw_if_index: u32,
    pub src_addr: u128,
    pub dst_addr: u128,
    pub data: Seq<u8>,
}

impl View for RxPacketV3 {
    type V = RxPacketV3View;

    open spec fn view(&self) -> RxPacketV3View {
        RxPacketV3View {
            sw_if_index: self.sw_if_index,
            src_addr: self.src_addr,
            dst_addr: self.dst_addr,
            data: self.data@,
        }
    }
}

/// An OSPFv3 packet to send.
#[derive(Debug)]
pub struct TxPacketV3 {
    pub sw_if_index: u32,
    pub src_addr: u128,
    pub dst_addr: u128,
    pub data: Vec<u8>,
}

/// What a packet to send says.
pub struct TxPacketV3View {
    pub sw_if_index: u32,
    pub src_addr: u128,
    pub dst_addr: u128,
    pub data: Seq<u8>,
}

impl View for TxPacketV3 {
    type V = TxPacketV3View;

    open spec fn view(&self) -> TxPacketV3View {
        TxPacketV3View {
            sw_if_index: self.sw_if_index,
            src_addr: self.src_addr,
            dst_addr: self.dst_addr,
            data: self.data@,
        }
    }
}

/// An interface that OSPFv3 runs on.
#[derive(Debug)]
pub struct IoInterfaceV3 {
    pub name: String,
    pub sw_if_index: u32,
    pub kernel_ifindex: u32,
    /// Link-local address, the source of every packet.
    pub link_local: u128,
    /// Ethernet address, needed where whole frames are built.
    pub mac_address: [u8; 6],
    /// 802.1Q tag of a sub-interface.
    pub outer_vlan_id: Option<u16>,
    /// Inner tag of a double-tagged sub-interface.
    pub inner_vlan_id: Option<u16>,
}

/// What is known of an interface.
pub struct IoInterfaceV3View {
    pub name: Seq<char>,
    pub sw_if_index: u32,
    pub kernel_ifindex: u32,
    pub link_local: u128,
    pub mac_address: Seq<u8>,
    pub outer_vlan_id: Option<u16>,
    pub inner_vlan_id: Option<u16>,
}

impl View for IoInterfaceV3 {
    type V = IoInterfaceV3View;

    open spec fn view(&self) -> IoInterfaceV3View {
        IoInterfaceV3View {
            name: self.name@,
            sw_if_index: self.sw_if_index,
            kernel_ifindex: self.kernel_ifindex,
            link_local: self.link_local,
            mac_address: self.mac_address@,
            outer_vlan_id: self.outer_vlan_id,
            inner_vlan_id: self.inner_vlan_id,
        }
    }
}

/// How packets come in and go out.
#[derive(Clone, Copy, Debug, PartialEq, Eq, Structural)]
pub enum V3IoBackend {
    /// Raw sockets of the kernel.
    Raw,
    /// The punt socket of the forwarder.
    Punt,
}

/// The packet that a raw socket delivered; nothing if it is too short for a header. The kernel
/// has taken the IPv6 header off, so the destination is left open.
pub fn raw_packet_v3(sw_if_index: u32, src_addr: u128, buf: &[u8]) -> (r: Option<RxPacketV3>)
    ensures
        match r {
            Some(p) => buf@.len() >= 16 && p@ == (RxPacketV3View {
                sw_if_index,
                src_addr,
                dst_addr: 0,
                data: buf@,
            }),
            None => buf@.len() < 16,
        },
{
    if buf.len() < 16 {
        return None;
    }
    let data = copy_range(buf, 0, buf.len());
    assert(data@ =~= buf@);
    Some(RxPacketV3 { sw_if_index, src_addr, dst_addr: 0, data })
}

} // verus!
