//! The OSPFv2 protocol instance: its state, timers and interface events.
//!
//! Times are milliseconds of a monotonic clock. Packets to send are given as the index of the
//! interface, the destination and the packet.
use vstd::prelude::*;

use crate::area;
use crate::area::{Area, AreaType};
use crate::config;
use crate::config::{
    AreaConfig, OspfDaemonConfig, OspfInterfaceConfig, ParsedSummaryAddress, RedistributeConfig,
    RouteMap,
};
use crate::lsdb;
use crate::lsdb::Lsdb;
use crate::packet;
use crate::packet::OspfPacket;
use crate::prefix;
use crate::prefix::prefix_len_to_mask;
use crate::proto::interface;
use crate::proto::interface::{NetworkType, OspfInterface, StaticNeighbor};
use crate::wire;
use crate::wire::same_text;

pub mod daemon;
pub mod distinct;
pub mod exchange;
pub mod exchange_laws;
pub mod external_laws;
pub mod externals;
pub mod flooding;
pub mod flooding_laws;
pub mod hello_laws;
pub mod laws;
pub mod link_laws;
pub mod originate;
pub mod reload;
pub mod restart;
pub mod route_laws;
pub mod routes;
pub mod setup;
pub mod setup_laws;
pub mod step;
pub mod summary_laws;
pub mod timer_laws;
pub mod timers;

verus! {

broadcast use {wire::lemma_views_push, wire::lemma_views_update};

/// A packet to send: the index of the interface, the destination, the packet.
pub type Outgoing = (u32, u32, OspfPacket);

/// What a packet to send is.
pub type OutgoingView = (u32, u32, packet::OspfPacketView);

/// The protocol instance. Areas and interfaces keep the order in which they were configured.
#[derive(Debug)]
pub struct OspfInstance {
    /// The VRF that the instance serves; nothing for the default one.
    pub vrf_name: Option<String>,
    pub router_id: u32,
    pub areas: Vec<Area>,
    /// AS-external LSAs, which belong to no area.
    pub as_external_lsdb: Lsdb,
    pub redistribute: Vec<RedistributeConfig>,
    pub interfaces: Vec<OspfInterface>,
    /// When route computation is due.
    pub spf_scheduled: Option<u64>,
    /// When routes were last computed.
    pub spf_last_run: Option<u64>,
    /// How often in a row route computation was asked for too soon.
    pub spf_hold_multiplier: u32,
    pub spf_delay_ms: u64,
    pub spf_holdtime_ms: u64,
    pub spf_max_holdtime_ms: u64,
    pub summary_addresses: Vec<ParsedSummaryAddress>,
    pub route_maps: Vec<RouteMap>,
}

/// What the instance knows.
pub struct OspfInstanceView {
    pub vrf_name: Option<Seq<char>>,
    pub router_id: u32,
    pub areas: Seq<area::AreaView>,
    pub as_external_lsdb: lsdb::LsdbView,
    pub redistribute: Seq<config::RedistributeConfigView>,
    pub interfaces: Seq<interface::OspfInterfaceView>,
    pub spf_scheduled: Option<u64>,
    pub spf_last_run: Option<u64>,
    pub spf_hold_multiplier: u32,
    pub spf_delay_ms: u64,
    pub spf_holdtime_ms: u64,
    pub spf_max_holdtime_ms: u64,
    pub summary_addresses: Seq<ParsedSummaryAddress>,
    pub route_maps: Seq<config::RouteMapView>,
}

impl View for OspfInstance {
    type V = OspfInstanceView;

    open spec fn view(&self) -> OspfInstanceView {
        OspfInstanceView {
            vrf_name: match self.vrf_name {
                Some(n) => Some(n@),
                None => None,
            },
            router_id: self.router_id,
            areas: wire::views(self.areas@),
            as_external_lsdb: self.as_external_lsdb@,
            redistribute: wire::views(self.redistribute@),
            interfaces: wire::views(self.interfaces@),
            spf_scheduled: self.spf_scheduled,
            spf_last_run: self.spf_last_run,
            spf_hold_multiplier: self.spf_hold_multiplier,
            spf_delay_ms: self.spf_delay_ms,
            spf_holdtime_ms: self.spf_holdtime_ms,
            spf_max_holdtime_ms: self.spf_max_holdtime_ms,
            summary_addresses: self.summary_addresses@,
            route_maps: wire::views(self.route_maps@),
        }
    }
}

/// Milliseconds between `earlier` and `now`; 0 if `earlier` lies ahead.
pub open spec fn elapsed(now: u64, earlier: u64) -> int {
    if now >= earlier {
        now - earlier
    } else {
        0
    }
}

/// The kind of network that the text names; broadcast if it names none.
pub open spec fn network_type_of(text: Seq<char>) -> NetworkType {
    if text == "point-to-point"@ {
        NetworkType::PointToPoint
    } else if text == "non-broadcast"@ {
        NetworkType::NonBroadcast
    } else if text == "point-to-multipoint"@ {
        NetworkType::PointToMultipoint
    } else {
        NetworkType::Broadcast
    }
}

/// The kind of network that the text names.
pub fn parse_network_type(text: &str) -> (t: NetworkType)
    ensures
        t == network_type_of(text@),
{
    if same_text(text, "point-to-point") {
        NetworkType::PointToPoint
    } else if same_text(text, "non-broadcast") {
        NetworkType::NonBroadcast
    } else if same_text(text, "point-to-multipoint") {
        NetworkType::PointToMultipoint
    } else {
        NetworkType::Broadcast
    }
}

/// The type of a configured area as the instance names it.
pub open spec fn area_type_of(t: config::AreaType) -> AreaType {
    match t {
        config::AreaType::Normal => AreaType::Normal,
        config::AreaType::Stub => AreaType::Stub,
        config::AreaType::Nssa => AreaType::Nssa,
    }
}

/// Type and default cost that are configured for an area. The last entry counts; without one the
/// area is normal, with cost 1.
pub open spec fn area_setting(cs: Seq<AreaConfig>, id: u32) -> (AreaType, u32)
    decreases cs.len(),
{
    if cs.len() == 0 {
        (AreaType::Normal, 1)
    } else if cs.last().area_id == id {
        (area_type_of(cs.last().area_type), cs.last().default_cost)
    } else {
        area_setting(cs.drop_last(), id)
    }
}

/// The position of the area at or behind `from`.
pub open spec fn area_pos(s: Seq<area::AreaView>, id: u32, from: int) -> Option<int>
    decreases s.len() - from,
{
    if from < 0 || from >= s.len() {
        None
    } else if s[from].area_id == id {
        Some(from)
    } else {
        area_pos(s, id, from + 1)
    }
}

/// The position of the interface with index `idx` at or behind `from`.
pub open spec fn iface_pos(s: Seq<interface::OspfInterfaceView>, idx: u32, from: int) -> Option<int>
    decreases s.len() - from,
{
    if from < 0 || from >= s.len() {
        None
    } else if s[from].sw_if_index == idx {
        Some(from)
    } else {
        iface_pos(s, idx, from + 1)
    }
}

/// The areas with one of the given id; a new one gets the given type and cost.
pub open spec fn with_area(
    s: Seq<area::AreaView>,
    id: u32,
    setting: (AreaType, u32),
    router_id: u32,
) -> Seq<area::AreaView> {
    if area_pos(s, id, 0) is Some {
        s
    } else {
        s.push(
            area::AreaView {
                default_cost: setting.1,
                ..area::AreaView::fresh(id, setting.0, router_id)
            },
        )
    }
}

/// The areas of the configured interfaces, passive ones too, in order of appearance.
pub open spec fn configured_areas(
    is: Seq<OspfInterfaceConfig>,
    cs: Seq<AreaConfig>,
    router_id: u32,
) -> Seq<area::AreaView>
    decreases is.len(),
{
    if is.len() == 0 {
        Seq::empty()
    } else {
        with_area(
            configured_areas(is.drop_last(), cs, router_id),
            is.last().area_id,
            area_setting(cs, is.last().area_id),
            router_id,
        )
    }
}

/// The configured neighbors as the interface keeps them.
pub open spec fn static_list(s: Seq<(u32, u8)>) -> Seq<StaticNeighbor> {
    Seq::new(s.len(), |k: int| StaticNeighbor { address: s[k].0, priority: s[k].1 })
}

/// The interface that a configuration entry describes, before it is resolved and brought up.
pub open spec fn configured_interface(
    c: OspfInterfaceConfig,
    router_id: u32,
) -> interface::OspfInterfaceView {
    interface::OspfInterfaceView {
        hello_interval: c.hello_interval,
        dead_interval: c.dead_interval,
        rxmt_interval: c.retransmit_interval,
        cost: c.cost,
        priority: c.priority,
        auth_key: c.auth_key@,
        static_neighbors: static_list(c.static_neighbors@),
        ..interface::OspfInterfaceView::fresh(
            c.name@,
            0,
            c.address,
            prefix::mask_v4(c.prefix_len as int),
            c.area_id,
            network_type_of(c.network_type@),
            router_id,
        )
    }
}

/// The interfaces that take part in the protocol: all configured ones that are not passive.
pub open spec fn configured_interfaces(
    is: Seq<OspfInterfaceConfig>,
    router_id: u32,
) -> Seq<interface::OspfInterfaceView>
    decreases is.len(),
{
    if is.len() == 0 {
        Seq::empty()
    } else if is.last().passive {
        configured_interfaces(is.drop_last(), router_id)
    } else {
        configured_interfaces(is.drop_last(), router_id).push(
            configured_interface(is.last(), router_id),
        )
    }
}

impl OspfInstanceView {
    /// The instance that a configuration describes.
    pub open spec fn configured(c: OspfDaemonConfig) -> OspfInstanceView {
        OspfInstanceView {
            vrf_name: match c.vrf_name {
                Some(n) => Some(n@),
                None => None,
            },
            router_id: c.router_id,
            areas: with_area(
                configured_areas(c.interfaces@, c.areas@, c.router_id),
                0,
                (AreaType::Normal, 1),
                c.router_id,
            ),
            as_external_lsdb: lsdb::LsdbView::empty(c.router_id),
            redistribute: wire::views(c.redistribute@),
            interfaces: configured_interfaces(c.interfaces@, c.router_id),
            spf_scheduled: None,
            spf_last_run: None,
            spf_hold_multiplier: 0,
            spf_delay_ms: c.spf_delay_ms,
            spf_holdtime_ms: c.spf_holdtime_ms,
            spf_max_holdtime_ms: c.spf_max_holdtime_ms,
            summary_addresses: c.summary_addresses@,
            route_maps: wire::views(c.route_maps@),
        }
    }

    /// No area and no neighbor is listed twice, and no database holds a key twice.
    pub open spec fn wf(self) -> bool {
        &&& forall|i: int, j: int|
            0 <= i < j < self.areas.len() ==> (#[trigger] self.areas[i]).area_id != (
            #[trigger] self.areas[j]).area_id
        &&& forall|i: int| 0 <= i < self.areas.len() ==> (#[trigger] self.areas[i]).lsdb.wf()
        &&& forall|i: int| 0 <= i < self.interfaces.len() ==> (#[trigger] self.interfaces[i]).wf()
        &&& self.as_external_lsdb.wf()
    }

    /// Whether an interface lies in the backbone and another one outside it.
    pub open spec fn border(self) -> bool {
        (exists|i: int|
            0 <= i < self.interfaces.len() && (#[trigger] self.interfaces[i]).area_id == 0) && (
        exists|j: int|
            0 <= j < self.interfaces.len() && (#[trigger] self.interfaces[j]).area_id != 0)
    }

    /// The time between two route computations after `k` requests that came too soon: it doubles
    /// with each up to the maximum.
    pub open spec fn hold_time(self) -> int {
        let k = if self.spf_hold_multiplier < 10 {
            self.spf_hold_multiplier as nat
        } else {
            10
        };
        let h = self.spf_holdtime_ms * vstd::arithmetic::power2::pow2(k);
        if h < self.spf_max_holdtime_ms {
            h
        } else {
            self.spf_max_holdtime_ms as int
        }
    }

    /// The delay of a route computation that is asked for at `now`, and the count of hasty requests
    /// that is left.
    pub open spec fn spf_delay(self, now: u64) -> (int, u32) {
        match self.spf_last_run {
            None => (self.spf_delay_ms as int, self.spf_hold_multiplier),
            Some(last) => if elapsed(now, last) >= self.hold_time() {
                (self.spf_delay_ms as int, 0)
            } else {
                (
                    self.hold_time() - elapsed(now, last),
                    if self.spf_hold_multiplier == u32::MAX {
                        u32::MAX
                    } else {
                        (self.spf_hold_multiplier + 1) as u32
                    },
                )
            },
        }
    }

    /// The instance after a route computation was asked for. One that is due sooner stays.
    pub open spec fn scheduled(self, now: u64) -> OspfInstanceView {
        let (delay, multiplier) = self.spf_delay(now);
        let at = if now + delay > u64::MAX {
            u64::MAX
        } else {
            (now + delay) as u64
        };
        OspfInstanceView {
            spf_hold_multiplier: multiplier,
            spf_scheduled: match self.spf_scheduled {
                Some(e) if e <= at => Some(e),
                _ => Some(at),
            },
            ..self
        }
    }
}

impl OspfInstance {
    /// The instance that a configuration describes. An area exists for every configured interface,
    /// passive ones too, and the backbone exists in any case.
    pub fn new(config: &OspfDaemonConfig) -> (r: OspfInstance)
        requires
            forall|i: int|
                0 <= i < config.interfaces@.len() && !(#[trigger] config.interfaces@[i]).passive
                    ==> config.interfaces@[i].prefix_len <= 32,
        ensures
            r@ == OspfInstanceView::configured(*config),
    {
        let ghost is = config.interfaces@;
        let rid: u32 = config.router_id;
        let mut areas: Vec<Area> = Vec::new();
        let mut interfaces: Vec<OspfInterface> = Vec::new();
        let mut i: usize = 0;
        assert(is.take(0) =~= Seq::empty());
        assert(wire::views(areas@) =~= Seq::empty());
        assert(wire::views(interfaces@) =~= Seq::empty());
        while i < config.interfaces.len()
            invariant
                i <= config.interfaces@.len(),
                is == config.interfaces@,
                rid == config.router_id,
                forall|i: int|
                    0 <= i < config.interfaces@.len() && !(#[trigger] config.interfaces@[i]).passive
                        ==> config.interfaces@[i].prefix_len <= 32,
                wire::views(areas@) == configured_areas(is.take(i as int), config.areas@, rid),
                wire::views(interfaces@) == configured_interfaces(is.take(i as int), rid),
            decreases config.interfaces.len() - i,
        {
            assert(is.take(i + 1).drop_last() =~= is.take(i as int));
            let c = &config.interfaces[i];
            let setting = setting_for(&config.areas, c.area_id);
            ensure_area(&mut areas, c.area_id, setting, rid);
            if !c.passive {
                interfaces.push(interface_from(c, rid));
            }
            i = i + 1;
        }
        assert(is.take(i as int) =~= is);
        ensure_area(&mut areas, 0, (AreaType::Normal, 1), rid);
        OspfInstance {
            vrf_name: match &config.vrf_name {
                Some(n) => Some(n.as_str().to_owned()),
                None => None,
            },
            router_id: rid,
            areas,
            as_external_lsdb: Lsdb::new(rid),
            redistribute: copy_rules(&config.redistribute),
            interfaces,
            spf_scheduled: None,
            spf_last_run: None,
            spf_hold_multiplier: 0,
            spf_delay_ms: config.spf_delay_ms,
            spf_holdtime_ms: config.spf_holdtime_ms,
            spf_max_holdtime_ms: config.spf_max_holdtime_ms,
            summary_addresses: copy_summaries(&config.summary_addresses),
            route_maps: copy_maps(&config.route_maps),
        }
    }

    /// The position of the area.
    pub fn find_area(&self, id: u32) -> (r: Option<usize>)
        ensures
            match (r, area_pos(self@.areas, id, 0)) {
                (Some(i), Some(j)) => i == j && i < self.areas@.len(),
                (None, None) => true,
                _ => false,
            },
    {
        position_of(&self.areas, id)
    }

    /// The database of the area.
    pub fn lsdb(&self, area_id: u32) -> (r: Option<&Lsdb>)
        ensures
            match (r, area_pos(self@.areas, area_id, 0)) {
                (Some(d), Some(j)) => d@ == self@.areas[j].lsdb,
                (None, None) => true,
                _ => false,
            },
    {
        match self.find_area(area_id) {
            Some(i) => Some(&self.areas[i].lsdb),
            None => None,
        }
    }

    /// Whether the router joins the backbone and another area.
    pub fn is_abr(&self) -> (r: bool)
        ensures
            r == self@.border(),
    {
        let mut inside = false;
        let mut outside = false;
        let mut i: usize = 0;
        while i < self.interfaces.len()
            invariant
                i <= self.interfaces@.len(),
                inside == exists|k: int|
                    0 <= k < i && (#[trigger] self@.interfaces[k]).area_id == 0,
                outside == exists|k: int|
                    0 <= k < i && (#[trigger] self@.interfaces[k]).area_id != 0,
            decreases self.interfaces.len() - i,
        {
            assert(self@.interfaces[i as int] == self.interfaces@[i as int]@);
            if self.interfaces[i].area_id == 0 {
                inside = true;
            } else {
                outside = true;
            }
            i = i + 1;
        }
        inside && outside
    }

    /// The position of the interface with the given index.
    pub fn find_interface(&self, sw_if_index: u32) -> (r: Option<usize>)
        ensures
            match (r, iface_pos(self@.interfaces, sw_if_index, 0)) {
                (Some(i), Some(j)) => i == j && i < self.interfaces@.len(),
                (None, None) => true,
                _ => false,
            },
    {
        let mut i: usize = 0;
        while i < self.interfaces.len()
            invariant
                i <= self.interfaces@.len(),
                iface_pos(self@.interfaces, sw_if_index, 0) == iface_pos(
                    self@.interfaces,
                    sw_if_index,
                    i as int,
                ),
            decreases self.interfaces.len() - i,
        {
            assert(self@.interfaces[i as int] == self.interfaces@[i as int]@);
            if self.interfaces[i].sw_if_index == sw_if_index {
                return Some(i);
            }
            i = i + 1;
        }
        None
    }

    /// Asks for a route computation. The first comes after the minimal delay; one that is asked for
    /// too soon after the last waits for the hold time, which doubles with each such request.
    pub fn schedule_spf(&mut self, now: u64)
        ensures
            final(self)@ == old(self)@.scheduled(now),
    {
        let delay: u64 = match self.spf_last_run {
            None => self.spf_delay_ms,
            Some(last) => {
                let since: u64 = if now >= last {
                    now - last
                } else {
                    0
                };
                let hold: u64 = self.hold();
                if since >= hold {
                    self.spf_hold_multiplier = 0;
                    self.spf_delay_ms
                } else {
                    self.spf_hold_multiplier = self.spf_hold_multiplier.saturating_add(1);
                    hold - since
                }
            },
        };
        let at: u64 = now.saturating_add(delay);
        match self.spf_scheduled {
            Some(e) => {
                if e > at {
                    self.spf_scheduled = Some(at);
                }
            },
            None => {
                self.spf_scheduled = Some(at);
            },
        }
    }

    /// The time between two route computations.
    fn hold(&self) -> (h: u64)
        ensures
            h == self@.hold_time(),
    {
        let k: u32 = if self.spf_hold_multiplier < 10 {
            self.spf_hold_multiplier
        } else {
            10
        };
        proof {
            vstd::arithmetic::power2::lemma2_to64();
            vstd::bits::lemma_u64_pow2_no_overflow(k as nat);
            vstd::bits::lemma_u64_shl_is_mul(1, k as u64);
            assert(1u64 << (k as u64) <= 1024) by (bit_vector)
                requires
                    k <= 10,
            ;
            let p = vstd::arithmetic::power2::pow2(k as nat) as int;
            let t = self.spf_holdtime_ms as int;
            assert(0 <= t * p <= 0xffffffffffffffff * 1024) by (nonlinear_arith)
                requires
                    0 <= t <= 0xffffffffffffffff,
                    0 <= p <= 1024,
            ;
        }
        let h: u128 = self.spf_holdtime_ms as u128 * ((1u64 << (k as u64)) as u128);
        if h < self.spf_max_holdtime_ms as u128 {
            h as u64
        } else {
            self.spf_max_holdtime_ms
        }
    }

    /// When route computation is due.
    pub fn spf_due(&self) -> (r: Option<u64>)
        ensures
            r == self@.spf_scheduled,
    {
        self.spf_scheduled
    }
}

/// The position of the area.
fn position_of(areas: &Vec<Area>, id: u32) -> (r: Option<usize>)
    ensures
        match (r, area_pos(wire::views(areas@), id, 0)) {
            (Some(i), Some(j)) => i == j && i < areas@.len(),
            (None, None) => true,
            _ => false,
        },
{
    let ghost s = wire::views(areas@);
    let mut i: usize = 0;
    while i < areas.len()
        invariant
            i <= areas@.len(),
            s == wire::views(areas@),
            area_pos(s, id, 0) == area_pos(s, id, i as int),
        decreases areas.len() - i,
    {
        assert(s[i as int] == areas@[i as int]@);
        if areas[i].area_id == id {
            return Some(i);
        }
        i = i + 1;
    }
    None
}

/// Adds the area unless it exists.
fn ensure_area(areas: &mut Vec<Area>, id: u32, setting: (AreaType, u32), router_id: u32)
    ensures
        wire::views(final(areas)@) == with_area(wire::views(old(areas)@), id, setting, router_id),
{
    if position_of(areas, id).is_none() {
        let mut a = Area::new(id, setting.0, router_id);
        a.default_cost = setting.1;
        areas.push(a);
    }
}

/// Type and default cost that are configured for an area.
fn setting_for(cs: &Vec<AreaConfig>, id: u32) -> (r: (AreaType, u32))
    ensures
        r == area_setting(cs@, id),
{
    let mut i: usize = cs.len();
    assert(cs@.take(i as int) =~= cs@);
    while i > 0
        invariant
            i <= cs@.len(),
            area_setting(cs@, id) == area_setting(cs@.take(i as int), id),
        decreases i,
    {
        assert(cs@.take(i as int).drop_last() =~= cs@.take(i - 1));
        let c = cs[i - 1];
        assert(cs@.take(i as int).last() == c);
        if c.area_id == id {
            let t = match c.area_type {
                config::AreaType::Normal => AreaType::Normal,
                config::AreaType::Stub => AreaType::Stub,
                config::AreaType::Nssa => AreaType::Nssa,
            };
            return (t, c.default_cost);
        }
        i = i - 1;
    }
    (AreaType::Normal, 1)
}

/// The interface that a configuration entry describes.
fn interface_from(c: &OspfInterfaceConfig, router_id: u32) -> (r: OspfInterface)
    requires
        c.prefix_len <= 32,
    ensures
        r@ == configured_interface(*c, router_id),
{
    let mut statics: Vec<StaticNeighbor> = Vec::new();
    let mut i: usize = 0;
    while i < c.static_neighbors.len()
        invariant
            i <= c.static_neighbors@.len(),
            statics@ == static_list(c.static_neighbors@).take(i as int),
        decreases c.static_neighbors.len() - i,
    {
        let e = c.static_neighbors[i];
        statics.push(StaticNeighbor { address: e.0, priority: e.1 });
        i = i + 1;
        assert(statics@ =~= static_list(c.static_neighbors@).take(i as int));
    }
    assert(statics@ =~= static_list(c.static_neighbors@));
    let mut r = OspfInterface::new(
        c.name.as_str().to_owned(),
        0,
        c.address,
        prefix_len_to_mask(c.prefix_len),
        c.area_id,
        parse_network_type(c.network_type.as_str()),
        router_id,
    );
    r.hello_interval = c.hello_interval;
    r.dead_interval = c.dead_interval;
    r.rxmt_interval = c.retransmit_interval;
    r.cost = c.cost;
    r.priority = c.priority;
    r.auth_key = c.auth_key.duplicate();
    r.static_neighbors = statics;
    r
}

/// A copy of the rules.
pub fn copy_rules(rs: &Vec<RedistributeConfig>) -> (r: Vec<RedistributeConfig>)
    ensures
        wire::views(r@) == wire::views(rs@),
{
    let mut v: Vec<RedistributeConfig> = Vec::new();
    let mut i: usize = 0;
    while i < rs.len()
        invariant
            i <= rs@.len(),
            wire::views(v@) == wire::views(rs@).take(i as int),
        decreases rs.len() - i,
    {
        v.push(rs[i].duplicate());
        i = i + 1;
        assert(wire::views(v@) =~= wire::views(rs@).take(i as int));
    }
    assert(wire::views(v@) =~= wire::views(rs@));
    v
}

/// A copy of the route maps.
pub fn copy_maps(rs: &Vec<RouteMap>) -> (r: Vec<RouteMap>)
    ensures
        wire::views(r@) == wire::views(rs@),
{
    let mut v: Vec<RouteMap> = Vec::new();
    let mut i: usize = 0;
    while i < rs.len()
        invariant
            i <= rs@.len(),
            wire::views(v@) == wire::views(rs@).take(i as int),
        decreases rs.len() - i,
    {
        v.push(rs[i].duplicate());
        i = i + 1;
        assert(wire::views(v@) =~= wire::views(rs@).take(i as int));
    }
    assert(wire::views(v@) =~= wire::views(rs@));
    v
}

/// A copy of the summary ranges.
pub fn copy_summaries(rs: &Vec<ParsedSummaryAddress>) -> (r: Vec<ParsedSummaryAddress>)
    ensures
        r@ == rs@,
{
    let mut v: Vec<ParsedSummaryAddress> = Vec::new();
    let mut i: usize = 0;
    while i < rs.len()
        invariant
            i <= rs@.len(),
            v@ == rs@.take(i as int),
        decreases rs.len() - i,
    {
        v.push(rs[i]);
        i = i + 1;
        assert(v@ =~= rs@.take(i as int));
    }
    assert(v@ =~= rs@);
    v
}

} // verus!
