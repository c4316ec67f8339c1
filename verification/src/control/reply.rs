//! What a client can ask, and what it gets.
use vstd::prelude::*;

use crate::config;
use crate::control::order::Listed;
use crate::wire;

verus! {

/// Where the control socket of the default VRF stands.
pub const DEFAULT_CONTROL_SOCKET: &'static str = "/run/ospfd.sock";

/// A request. The commands with a six ask the OSPFv3 instance.
#[derive(Debug)]
pub enum ControlRequest {
    Status,
    Neighbors,
    Interfaces,
    Database { area: Option<String>, ls_type: Option<String> },
    Routes,
    Status6,
    Neighbors6,
    Interfaces6,
    Database6 { area: Option<String>, ls_type: Option<String> },
    Routes6,
}

/// What a request asks.
pub enum ControlRequestView {
    Status,
    Neighbors,
    Interfaces,
    Database { area: Option<Seq<char>>, ls_type: Option<Seq<char>> },
    Routes,
    Status6,
    Neighbors6,
    Interfaces6,
    Database6 { area: Option<Seq<char>>, ls_type: Option<Seq<char>> },
    Routes6,
}

impl View for ControlRequest {
    type V = ControlRequestView;

    open spec fn view(&self) -> ControlRequestView {
        match *self {
            ControlRequest::Status => ControlRequestView::Status,
            ControlRequest::Neighbors => ControlRequestView::Neighbors,
            ControlRequest::Interfaces => ControlRequestView::Interfaces,
            ControlRequest::Database { area, ls_type } => ControlRequestView::Database {
                area: config::opt_text(area),
                ls_type: config::opt_text(ls_type),
            },
            ControlRequest::Routes => ControlRequestView::Routes,
            ControlRequest::Status6 => ControlRequestView::Status6,
            ControlRequest::Neighbors6 => ControlRequestView::Neighbors6,
            ControlRequest::Interfaces6 => ControlRequestView::Interfaces6,
            ControlRequest::Database6 { area, ls_type } => ControlRequestView::Database6 {
                area: config::opt_text(area),
                ls_type: config::opt_text(ls_type),
            },
            ControlRequest::Routes6 => ControlRequestView::Routes6,
        }
    }
}

/// A response.
#[derive(Debug)]
pub enum ControlResponse {
    Status(StatusReply),
    Neighbors(NeighborsReply),
    Interfaces(InterfacesReply),
    Database(DatabaseReply),
    Routes(RoutesReply),
    Status6(StatusReply),
    Neighbors6(NeighborsReply),
    Interfaces6(InterfacesReply),
    Database6(DatabaseReply),
    Routes6(Routes6Reply),
    Error { error: String },
}

/// What a response says.
pub enum ControlResponseView {
    Status(StatusReplyView),
    Neighbors(NeighborsReplyView),
    Interfaces(InterfacesReplyView),
    Database(DatabaseReplyView),
    Routes(RoutesReplyView),
    Status6(StatusReplyView),
    Neighbors6(NeighborsReplyView),
    Interfaces6(InterfacesReplyView),
    Database6(DatabaseReplyView),
    Routes6(Routes6ReplyView),
    Error { error: Seq<char> },
}

impl View for ControlResponse {
    type V = ControlResponseView;

    open spec fn view(&self) -> ControlResponseView {
        match *self {
            ControlResponse::Status(r) => ControlResponseView::Status(r@),
            ControlResponse::Neighbors(r) => ControlResponseView::Neighbors(r@),
            ControlResponse::Interfaces(r) => ControlResponseView::Interfaces(r@),
            ControlResponse::Database(r) => ControlResponseView::Database(r@),
            ControlResponse::Routes(r) => ControlResponseView::Routes(r@),
            ControlResponse::Status6(r) => ControlResponseView::Status6(r@),
            ControlResponse::Neighbors6(r) => ControlResponseView::Neighbors6(r@),
            ControlResponse::Interfaces6(r) => ControlResponseView::Interfaces6(r@),
            ControlResponse::Database6(r) => ControlResponseView::Database6(r@),
            ControlResponse::Routes6(r) => ControlResponseView::Routes6(r@),
            ControlResponse::Error { error } => ControlResponseView::Error { error: error@ },
        }
    }
}

/// One path of an IPv6 route.
#[derive(Debug)]
pub struct Route6NextHop {
    pub address: String,
    pub sw_if_index: u32,
}

/// What such a record says.
pub struct Route6NextHopView {
    pub address: Seq<char>,
    pub sw_if_index: u32,
}

impl View for Route6NextHop {
    type V = Route6NextHopView;

    open spec fn view(&self) -> Route6NextHopView {
        Route6NextHopView {
            address: self.address@,
            sw_if_index: self.sw_if_index,
        }
    }
}

/// An IPv6 route.
#[derive(Debug)]
pub struct Route6Status {
    pub prefix: String,
    pub prefix_len: u8,
    pub cost: u32,
    /// One entry for each path of equal cost.
    pub next_hops: Vec<Route6NextHop>,
}

/// What such a record says.
pub struct Route6StatusView {
    pub prefix: Seq<char>,
    pub prefix_len: u8,
    pub cost: u32,
    pub next_hops: Seq<Route6NextHopView>,
}

impl View for Route6Status {
    type V = Route6StatusView;

    open spec fn view(&self) -> Route6StatusView {
        Route6StatusView {
            prefix: self.prefix@,
            prefix_len: self.prefix_len,
            cost: self.cost,
            next_hops: wire::views(self.next_hops@),
        }
    }
}

/// The IPv6 routes.
#[derive(Debug)]
pub struct Routes6Reply {
    pub routes: Vec<Route6Status>,
}

/// What such a record says.
pub struct Routes6ReplyView {
    pub routes: Seq<Route6StatusView>,
}

impl View for Routes6Reply {
    type V = Routes6ReplyView;

    open spec fn view(&self) -> Routes6ReplyView {
        Routes6ReplyView {
            routes: wire::views(self.routes@),
        }
    }
}

/// A configured summary range.
#[derive(Debug)]
pub struct SummaryAddressStatus {
    pub prefix: String,
    pub no_advertise: bool,
    pub tag: u32,
    pub metric: u32,
    pub metric_type: u8,
}

/// What such a record says.
pub struct SummaryAddressStatusView {
    pub prefix: Seq<char>,
    pub no_advertise: bool,
    pub tag: u32,
    pub metric: u32,
    pub metric_type: u8,
}

impl View for SummaryAddressStatus {
    type V = SummaryAddressStatusView;

    open spec fn view(&self) -> SummaryAddressStatusView {
        SummaryAddressStatusView {
            prefix: self.prefix@,
            no_advertise: self.no_advertise,
            tag: self.tag,
            metric: self.metric,
            metric_type: self.metric_type,
        }
    }
}

/// An area in figures.
#[derive(Debug)]
pub struct AreaStatus {
    pub area_id: String,
    pub lsa_count: usize,
    pub interface_count: usize,
    pub fully_adjacent_neighbors: usize,
}

/// What such a record says.
pub struct AreaStatusView {
    pub area_id: Seq<char>,
    pub lsa_count: usize,
    pub interface_count: usize,
    pub fully_adjacent_neighbors: usize,
}

impl View for AreaStatus {
    type V = AreaStatusView;

    open spec fn view(&self) -> AreaStatusView {
        AreaStatusView {
            area_id: self.area_id@,
            lsa_count: self.lsa_count,
            interface_count: self.interface_count,
            fully_adjacent_neighbors: self.fully_adjacent_neighbors,
        }
    }
}

/// An instance in figures.
#[derive(Debug)]
pub struct StatusReply {
    /// The VRF that the instance serves; nothing for the default one.
    pub vrf_name: Option<String>,
    pub router_id: String,
    pub areas: Vec<AreaStatus>,
    pub is_abr: bool,
    pub as_external_lsa_count: usize,
    pub installed_route_count: usize,
    pub summary_addresses: Vec<SummaryAddressStatus>,
}

/// What such a record says.
pub struct StatusReplyView {
    pub vrf_name: Option<Seq<char>>,
    pub router_id: Seq<char>,
    pub areas: Seq<AreaStatusView>,
    pub is_abr: bool,
    pub as_external_lsa_count: usize,
    pub installed_route_count: usize,
    pub summary_addresses: Seq<SummaryAddressStatusView>,
}

impl View for StatusReply {
    type V = StatusReplyView;

    open spec fn view(&self) -> StatusReplyView {
        StatusReplyView {
            vrf_name: config::opt_text(self.vrf_name),
            router_id: self.router_id@,
            areas: wire::views(self.areas@),
            is_abr: self.is_abr,
            as_external_lsa_count: self.as_external_lsa_count,
            installed_route_count: self.installed_route_count,
            summary_addresses: wire::views(self.summary_addresses@),
        }
    }
}

/// A neighbor.
#[derive(Debug)]
pub struct NeighborStatus {
    pub router_id: String,
    pub address: String,
    pub interface: String,
    pub area_id: String,
    pub state: String,
    pub priority: u8,
    pub dr: String,
    pub bdr: String,
    pub dead_seconds_remaining: u64,
}

/// What such a record says.
pub struct NeighborStatusView {
    pub router_id: Seq<char>,
    pub address: Seq<char>,
    pub interface: Seq<char>,
    pub area_id: Seq<char>,
    pub state: Seq<char>,
    pub priority: u8,
    pub dr: Seq<char>,
    pub bdr: Seq<char>,
    pub dead_seconds_remaining: u64,
}

impl View for NeighborStatus {
    type V = NeighborStatusView;

    open spec fn view(&self) -> NeighborStatusView {
        NeighborStatusView {
            router_id: self.router_id@,
            address: self.address@,
            interface: self.interface@,
            area_id: self.area_id@,
            state: self.state@,
            priority: self.priority,
            dr: self.dr@,
            bdr: self.bdr@,
            dead_seconds_remaining: self.dead_seconds_remaining,
        }
    }
}

/// The neighbors.
#[derive(Debug)]
pub struct NeighborsReply {
    pub neighbors: Vec<NeighborStatus>,
}

/// What such a record says.
pub struct NeighborsReplyView {
    pub neighbors: Seq<NeighborStatusView>,
}

impl View for NeighborsReply {
    type V = NeighborsReplyView;

    open spec fn view(&self) -> NeighborsReplyView {
        NeighborsReplyView {
            neighbors: wire::views(self.neighbors@),
        }
    }
}

/// An interface.
#[derive(Debug)]
pub struct InterfaceStatus {
    pub name: String,
    pub sw_if_index: u32,
    pub address: String,
    pub mask: String,
    pub area_id: String,
    pub state: String,
    pub network_type: String,
    pub cost: u16,
    pub priority: u8,
    pub hello_interval: u16,
    pub dead_interval: u32,
    pub dr: String,
    pub bdr: String,
    pub neighbor_count: usize,
}

/// What such a record says.
pub struct InterfaceStatusView {
    pub name: Seq<char>,
    pub sw_if_index: u32,
    pub address: Seq<char>,
    pub mask: Seq<char>,
    pub area_id: Seq<char>,
    pub state: Seq<char>,
    pub network_type: Seq<char>,
    pub cost: u16,
    pub priority: u8,
    pub hello_interval: u16,
    pub dead_interval: u32,
    pub dr: Seq<char>,
    pub bdr: Seq<char>,
    pub neighbor_count: usize,
}

impl View for InterfaceStatus {
    type V = InterfaceStatusView;

    open spec fn view(&self) -> InterfaceStatusView {
        InterfaceStatusView {
            name: self.name@,
            sw_if_index: self.sw_if_index,
            address: self.address@,
            mask: self.mask@,
            area_id: self.area_id@,
            state: self.state@,
            network_type: self.network_type@,
            cost: self.cost,
            priority: self.priority,
            hello_interval: self.hello_interval,
            dead_interval: self.dead_interval,
            dr: self.dr@,
            bdr: self.bdr@,
            neighbor_count: self.neighbor_count,
        }
    }
}

/// The interfaces.
#[derive(Debug)]
pub struct InterfacesReply {
    pub interfaces: Vec<InterfaceStatus>,
}

/// What such a record says.
pub struct InterfacesReplyView {
    pub interfaces: Seq<InterfaceStatusView>,
}

impl View for InterfacesReply {
    type V = InterfacesReplyView;

    open spec fn view(&self) -> InterfacesReplyView {
        InterfacesReplyView {
            interfaces: wire::views(self.interfaces@),
        }
    }
}

/// A stored LSA.
#[derive(Debug)]
pub struct LsaSummary {
    pub area_id: String,
    pub ls_type: String,
    pub link_state_id: String,
    pub advertising_router: String,
    pub ls_age: u16,
    pub ls_sequence_number: i32,
    pub length: u16,
    pub self_originated: bool,
}

/// What such a record says.
pub struct LsaSummaryView {
    pub area_id: Seq<char>,
    pub ls_type: Seq<char>,
    pub link_state_id: Seq<char>,
    pub advertising_router: Seq<char>,
    pub ls_age: u16,
    pub ls_sequence_number: i32,
    pub length: u16,
    pub self_originated: bool,
}

impl View for LsaSummary {
    type V = LsaSummaryView;

    open spec fn view(&self) -> LsaSummaryView {
        LsaSummaryView {
            area_id: self.area_id@,
            ls_type: self.ls_type@,
            link_state_id: self.link_state_id@,
            advertising_router: self.advertising_router@,
            ls_age: self.ls_age,
            ls_sequence_number: self.ls_sequence_number,
            length: self.length,
            self_originated: self.self_originated,
        }
    }
}

/// The stored LSAs.
#[derive(Debug)]
pub struct DatabaseReply {
    pub lsas: Vec<LsaSummary>,
}

/// What such a record says.
pub struct DatabaseReplyView {
    pub lsas: Seq<LsaSummaryView>,
}

impl View for DatabaseReply {
    type V = DatabaseReplyView;

    open spec fn view(&self) -> DatabaseReplyView {
        DatabaseReplyView {
            lsas: wire::views(self.lsas@),
        }
    }
}

/// An installed route.
#[derive(Debug)]
pub struct RouteStatus {
    pub prefix: String,
    pub prefix_len: u8,
    pub next_hop: String,
    pub sw_if_index: u32,
    pub cost: u32,
}

/// What such a record says.
pub struct RouteStatusView {
    pub prefix: Seq<char>,
    pub prefix_len: u8,
    pub next_hop: Seq<char>,
    pub sw_if_index: u32,
    pub cost: u32,
}

impl View for RouteStatus {
    type V = RouteStatusView;

    open spec fn view(&self) -> RouteStatusView {
        RouteStatusView {
            prefix: self.prefix@,
            prefix_len: self.prefix_len,
            next_hop: self.next_hop@,
            sw_if_index: self.sw_if_index,
            cost: self.cost,
        }
    }
}

/// The installed routes.
#[derive(Debug)]
pub struct RoutesReply {
    pub routes: Vec<RouteStatus>,
}

/// What such a record says.
pub struct RoutesReplyView {
    pub routes: Seq<RouteStatusView>,
}

impl View for RoutesReply {
    type V = RoutesReplyView;

    open spec fn view(&self) -> RoutesReplyView {
        RoutesReplyView {
            routes: wire::views(self.routes@),
        }
    }
}

/// A route that the forwarding table holds.
#[derive(Clone, Copy, Debug, PartialEq, Eq, Structural)]
pub struct InstalledRoute {
    pub prefix: u32,
    pub prefix_len: u8,
    pub next_hop: u32,
    pub sw_if_index: u32,
    pub cost: u32,
}

impl Listed for AreaStatus {
    open spec fn text_of(v: AreaStatusView, k: int) -> Seq<char> {
        v.area_id
    }

    open spec fn texts() -> int {
        1
    }

    fn text(&self, k: usize) -> (t: &str) {
        self.area_id.as_str()
    }
}

impl Listed for NeighborStatus {
    open spec fn text_of(v: NeighborStatusView, k: int) -> Seq<char> {
        v.router_id
    }

    open spec fn texts() -> int {
        1
    }

    fn text(&self, k: usize) -> (t: &str) {
        self.router_id.as_str()
    }
}

impl Listed for LsaSummary {
    open spec fn text_of(v: LsaSummaryView, k: int) -> Seq<char> {
        if k == 0 {
            v.area_id
        } else if k == 1 {
            v.ls_type
        } else if k == 2 {
            v.link_state_id
        } else {
            v.advertising_router
        }
    }

    open spec fn texts() -> int {
        4
    }

    fn text(&self, k: usize) -> (t: &str) {
        if k == 0 {
            self.area_id.as_str()
        } else if k == 1 {
            self.ls_type.as_str()
        } else if k == 2 {
            self.link_state_id.as_str()
        } else {
            self.advertising_router.as_str()
        }
    }
}

impl ControlRequestView {
    /// Whether the OSPFv3 instance is asked.
    pub open spec fn is_v3(self) -> bool {
        match self {
            ControlRequestView::Status6 => true,
            ControlRequestView::Neighbors6 => true,
            ControlRequestView::Interfaces6 => true,
            ControlRequestView::Database6 { .. } => true,
            ControlRequestView::Routes6 => true,
            _ => false,
        }
    }
}

/// Whether the OSPFv3 instance is asked.
pub fn is_v3_request(req: &ControlRequest) -> (r: bool)
    ensures
        r == req@.is_v3(),
{
    match req {
        ControlRequest::Status6 => true,
        ControlRequest::Neighbors6 => true,
        ControlRequest::Interfaces6 => true,
        ControlRequest::Database6 { .. } => true,
        ControlRequest::Routes6 => true,
        _ => false,
    }
}

} // verus!
