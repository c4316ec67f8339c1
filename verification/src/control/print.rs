//! Replies as text.
use vstd::prelude::*;

use crate::control::reply;
use crate::control::reply::{
    AreaStatus, ControlResponse, DatabaseReply, InterfaceStatus, InterfacesReply, LsaSummary,
    NeighborStatus, NeighborsReply, Route6NextHop, Route6Status, RouteStatus, Routes6Reply,
    RoutesReply, StatusReply, SummaryAddressStatus,
};
use crate::text;
use crate::text::{append_hex, append_number, append_padded, parse_ipv4};
use crate::wire;
use crate::wire::to_bits;

verus! {

broadcast use {wire::lemma_views_push, wire::lemma_views_update};

/// Cells beside each other, each as wide as it says.
pub open spec fn cells_text(cells: Seq<(Seq<char>, usize)>) -> Seq<char>
    decreases cells.len(),
{
    if cells.len() == 0 {
        Seq::empty()
    } else {
        let last = text::padded(cells.last().0, cells.last().1 as nat);
        if cells.len() == 1 {
            last
        } else {
            cells_text(cells.drop_last()) + " "@ + last
        }
    }
}

/// A line of cells.
pub open spec fn row_text(cells: Seq<(Seq<char>, usize)>) -> Seq<char> {
    cells_text(cells) + "\n"@
}

fn append_row(out: &mut String, cells: &Vec<(String, usize)>)
    ensures
        final(out)@ == old(out)@ + row_text(wire::views(cells@)),
{
    let ghost start = out@;
    let ghost s = wire::views(cells@);
    let mut i: usize = 0;
    assert(s.take(0) =~= Seq::empty());
    assert(start + Seq::<char>::empty() =~= start);
    while i < cells.len()
        invariant
            i <= cells@.len(),
            s == wire::views(cells@),
            out@ == start + cells_text(s.take(i as int)),
        decreases cells.len() - i,
    {
        let ghost before = s.take(i as int);
        assert(s.take(i + 1).drop_last() =~= before);
        assert(s.take(i + 1).last() == (cells@[i as int].0@, cells@[i as int].1));
        if i > 0 {
            out.append(" ");
        }
        append_padded(out, cells[i].0.as_str(), cells[i].1);
        assert(out@ =~= start + cells_text(s.take(i + 1)));
        i = i + 1;
    }
    assert(s.take(i as int) =~= s);
    out.append("\n");
    assert(out@ =~= start + row_text(s));
}

/// A record that is printed as a line of cells.
pub trait Tabled: View {
    /// The cells of the line.
    spec fn cells(v: Self::V) -> Seq<(Seq<char>, usize)>;

    /// The cells of the line.
    fn row(&self) -> (r: Vec<(String, usize)>)
        ensures
            wire::views(r@) == Self::cells(self@),
    ;
}

/// The lines of the records.
pub open spec fn rows_text<T: Tabled>(s: Seq<T::V>) -> Seq<char>
    decreases s.len(),
{
    if s.len() == 0 {
        Seq::empty()
    } else {
        rows_text::<T>(s.drop_last()) + row_text(T::cells(s.last()))
    }
}

fn append_rows<T: Tabled>(out: &mut String, items: &Vec<T>)
    ensures
        final(out)@ == old(out)@ + rows_text::<T>(wire::views(items@)),
{
    let ghost start = out@;
    let ghost s = wire::views(items@);
    let mut i: usize = 0;
    assert(s.take(0) =~= Seq::empty());
    assert(start + Seq::<char>::empty() =~= start);
    while i < items.len()
        invariant
            i <= items@.len(),
            s == wire::views(items@),
            out@ == start + rows_text::<T>(s.take(i as int)),
        decreases items.len() - i,
    {
        assert(s.take(i + 1).drop_last() =~= s.take(i as int));
        assert(s.take(i + 1).last() == items@[i as int]@);
        let cells = items[i].row();
        append_row(out, &cells);
        assert(out@ =~= start + rows_text::<T>(s.take(i + 1)));
        i = i + 1;
    }
    assert(s.take(i as int) =~= s);
}

fn cell(s: &str, w: usize) -> (r: (String, usize))
    ensures
        r@ == (s@, w),
{
    (s.to_owned(), w)
}

fn labelled(label: &str, n: u64, w: usize) -> (r: (String, usize))
    ensures
        r@ == (label@ + text::decimal_text(n as nat), w),
{
    let mut s: String = label.to_owned();
    append_number(&mut s, n);
    (s, w)
}

fn number(n: u64, w: usize) -> (r: (String, usize))
    ensures
        r@ == (text::decimal_text(n as nat), w),
{
    let mut s: String = "".to_owned();
    proof {
        reveal_strlit("");
    }
    append_number(&mut s, n);
    assert(s@ =~= text::decimal_text(n as nat));
    (s, w)
}

/// An address, a slash and a number.
pub open spec fn slashed(a: Seq<char>, n: nat) -> Seq<char> {
    a + "/"@ + text::decimal_text(n)
}

fn with_slash(a: &str, n: u8, w: usize) -> (r: (String, usize))
    ensures
        r@ == (slashed(a@, n as nat), w),
{
    let mut s: String = a.to_owned();
    s.append("/");
    append_number(&mut s, n as u64);
    (s, w)
}

impl Tabled for AreaStatus {
    open spec fn cells(v: reply::AreaStatusView) -> Seq<(Seq<char>, usize)> {
        seq![
            (""@, 1),
            (v.area_id, 0),
            (""@, 0),
            ("LSAs="@ + text::decimal_text(v.lsa_count as nat), 9),
            ("ifaces="@ + text::decimal_text(v.interface_count as nat), 9),
            ("full_neighbors="@ + text::decimal_text(v.fully_adjacent_neighbors as nat), 0),
        ]
    }

    fn row(&self) -> (r: Vec<(String, usize)>) {
        let r: Vec<(String, usize)> = vec![
            cell("", 1),
            cell(self.area_id.as_str(), 0),
            cell("", 0),
            labelled("LSAs=", self.lsa_count as u64, 9),
            labelled("ifaces=", self.interface_count as u64, 9),
            labelled("full_neighbors=", self.fully_adjacent_neighbors as u64, 0),
        ];
        assert(wire::views(r@) =~= Self::cells(self@));
        r
    }
}

impl Tabled for SummaryAddressStatus {
    open spec fn cells(v: reply::SummaryAddressStatusView) -> Seq<(Seq<char>, usize)> {
        seq![
            (""@, 1),
            (v.prefix, 0),
            (""@, 0),
            ("metric="@ + text::decimal_text(v.metric as nat), 0),
            ("type="@ + text::decimal_text(v.metric_type as nat), 0),
            (
                "tag="@ + text::decimal_text(v.tag as nat) + if v.no_advertise {
                    " no-advertise"@
                } else {
                    Seq::empty()
                },
                0,
            ),
        ]
    }

    fn row(&self) -> (r: Vec<(String, usize)>) {
        let mut tag = labelled("tag=", self.tag as u64, 0);
        let ghost plain = tag.0@;
        if self.no_advertise {
            tag.0.append(" no-advertise");
        }
        assert(plain + Seq::<char>::empty() =~= plain);
        let r: Vec<(String, usize)> = vec![
            cell("", 1),
            cell(self.prefix.as_str(), 0),
            cell("", 0),
            labelled("metric=", self.metric as u64, 0),
            labelled("type=", self.metric_type as u64, 0),
            tag,
        ];
        assert(wire::views(r@) =~= Self::cells(self@));
        r
    }
}

impl Tabled for NeighborStatus {
    open spec fn cells(v: reply::NeighborStatusView) -> Seq<(Seq<char>, usize)> {
        seq![
            (v.router_id, 16),
            (v.address, 16),
            (v.interface, 10),
            (v.state, 10),
            (text::decimal_text(v.priority as nat), 4),
            (v.dr, 16),
            (v.bdr, 16),
            (text::decimal_text(v.dead_seconds_remaining as nat) + "s"@, 0),
        ]
    }

    fn row(&self) -> (r: Vec<(String, usize)>) {
        let mut dead = number(self.dead_seconds_remaining, 0);
        dead.0.append("s");
        let r: Vec<(String, usize)> = vec![
            cell(self.router_id.as_str(), 16),
            cell(self.address.as_str(), 16),
            cell(self.interface.as_str(), 10),
            cell(self.state.as_str(), 10),
            number(self.priority as u64, 4),
            cell(self.dr.as_str(), 16),
            cell(self.bdr.as_str(), 16),
            dead,
        ];
        assert(wire::views(r@) =~= Self::cells(self@));
        r
    }
}

/// The head of the table of neighbors.
pub open spec fn neighbor_head() -> Seq<(Seq<char>, usize)> {
    seq![
        ("Router ID"@, 16),
        ("Address"@, 16),
        ("Interface"@, 10),
        ("State"@, 10),
        ("Pri"@, 4),
        ("DR"@, 16),
        ("BDR"@, 16),
        ("Dead"@, 0),
    ]
}

/// How many bits of a mask are set.
pub open spec fn ones(x: u32) -> nat
    decreases x,
{
    if x == 0 {
        0
    } else {
        ones(x / 2) + (x % 2) as nat
    }
}

fn count_ones(x: u32) -> (n: u8)
    ensures
        n == ones(x),
        n <= 32,
{
    let mut rest: u32 = x;
    let mut n: u8 = 0;
    let mut k: u8 = 0;
    let ghost mut bound: int = 0x100000000;
    proof {
        vstd::arithmetic::power2::lemma2_to64();
    }
    while rest > 0
        invariant
            n <= k <= 32,
            ones(x) == n + ones(rest),
            rest < bound,
            bound == vstd::arithmetic::power2::pow2((32 - k) as nat),
        decreases rest,
    {
        proof {
            vstd::arithmetic::power2::lemma2_to64();
            if k < 32 {
                vstd::arithmetic::power2::lemma_pow2_unfold((32 - k) as nat);
            }
        }
        n = n + (rest % 2) as u8;
        rest = rest / 2;
        k = k + 1;
        proof {
            bound = bound / 2;
        }
    }
    n
}

/// The length of the prefix that the text of a mask stands for; 0 for a text that is no mask.
pub fn prefix_from_mask(mask: &str) -> (n: u8)
    ensures
        n == (match text::ipv4(mask@) {
            Some(m) => ones(m),
            None => 0,
        }),
{
    match parse_ipv4(mask) {
        Some(m) => count_ones(m),
        None => 0,
    }
}

impl Tabled for InterfaceStatus {
    open spec fn cells(v: reply::InterfaceStatusView) -> Seq<(Seq<char>, usize)> {
        seq![
            (v.name, 12),
            (
                slashed(
                    v.address,
                    match text::ipv4(v.mask) {
                        Some(m) => ones(m),
                        None => 0,
                    },
                ),
                16,
            ),
            (v.area_id, 12),
            (v.state, 14),
            (text::decimal_text(v.cost as nat), 4),
            (text::decimal_text(v.priority as nat), 3),
            (text::decimal_text(v.hello_interval as nat), 5),
            (text::decimal_text(v.neighbor_count as nat), 0),
        ]
    }

    fn row(&self) -> (r: Vec<(String, usize)>) {
        let r: Vec<(String, usize)> = vec![
            cell(self.name.as_str(), 12),
            with_slash(self.address.as_str(), prefix_from_mask(self.mask.as_str()), 16),
            cell(self.area_id.as_str(), 12),
            cell(self.state.as_str(), 14),
            number(self.cost as u64, 4),
            number(self.priority as u64, 3),
            number(self.hello_interval as u64, 5),
            number(self.neighbor_count as u64, 0),
        ];
        assert(wire::views(r@) =~= Self::cells(self@));
        r
    }
}

/// The head of the table of interfaces.
pub open spec fn interface_head() -> Seq<(Seq<char>, usize)> {
    seq![
        ("Name"@, 12),
        ("Address"@, 16),
        ("Area"@, 12),
        ("State"@, 14),
        ("Cost"@, 4),
        ("Pri"@, 3),
        ("Hello"@, 5),
        ("Neighbors"@, 0),
    ]
}

impl Tabled for LsaSummary {
    open spec fn cells(v: reply::LsaSummaryView) -> Seq<(Seq<char>, usize)> {
        seq![
            (v.area_id, 12),
            (v.ls_type, 16),
            (v.link_state_id, 16),
            (v.advertising_router, 16),
            (text::decimal_text(v.ls_age as nat), 6),
            ("0x"@ + text::hex_text(wire::i32_bits(v.ls_sequence_number) as nat), 12),
            (
                text::decimal_text(v.length as nat) + if v.self_originated {
                    " (self)"@
                } else {
                    Seq::empty()
                },
                0,
            ),
        ]
    }

    fn row(&self) -> (r: Vec<(String, usize)>) {
        let mut seq_text: String = "0x".to_owned();
        append_hex(&mut seq_text, to_bits(self.ls_sequence_number));
        let mut length = number(self.length as u64, 0);
        let ghost plain = length.0@;
        if self.self_originated {
            length.0.append(" (self)");
        }
        assert(plain + Seq::<char>::empty() =~= plain);
        let r: Vec<(String, usize)> = vec![
            cell(self.area_id.as_str(), 12),
            cell(self.ls_type.as_str(), 16),
            cell(self.link_state_id.as_str(), 16),
            cell(self.advertising_router.as_str(), 16),
            number(self.ls_age as u64, 6),
            (seq_text, 12),
            length,
        ];
        assert(wire::views(r@) =~= Self::cells(self@));
        r
    }
}

/// The head of the table of LSAs.
pub open spec fn database_head() -> Seq<(Seq<char>, usize)> {
    seq![
        ("Area"@, 12),
        ("Type"@, 16),
        ("Link State ID"@, 16),
        ("Adv Router"@, 16),
        ("Age"@, 6),
        ("Seq"@, 12),
        ("Len"@, 0),
    ]
}

impl Tabled for RouteStatus {
    open spec fn cells(v: reply::RouteStatusView) -> Seq<(Seq<char>, usize)> {
        seq![
            (slashed(v.prefix, v.prefix_len as nat), 20),
            (v.next_hop, 16),
            (text::decimal_text(v.cost as nat), 6),
            (text::decimal_text(v.sw_if_index as nat), 0),
        ]
    }

    fn row(&self) -> (r: Vec<(String, usize)>) {
        let r: Vec<(String, usize)> = vec![
            with_slash(self.prefix.as_str(), self.prefix_len, 20),
            cell(self.next_hop.as_str(), 16),
            number(self.cost as u64, 6),
            number(self.sw_if_index as u64, 0),
        ];
        assert(wire::views(r@) =~= Self::cells(self@));
        r
    }
}

/// The head of the table of routes.
pub open spec fn route_head() -> Seq<(Seq<char>, usize)> {
    seq![("Prefix"@, 20), ("Next Hop"@, 16), ("Cost"@, 6), ("sw_if_index"@, 0)]
}

/// The paths of a route with commas between them, each with its interface behind a percent sign.
pub open spec fn hops_text(s: Seq<reply::Route6NextHopView>) -> Seq<char>
    decreases s.len(),
{
    if s.len() == 0 {
        Seq::empty()
    } else {
        let last = s.last().address + "%"@ + text::decimal_text(s.last().sw_if_index as nat);
        if s.len() == 1 {
            last
        } else {
            hops_text(s.drop_last()) + ", "@ + last
        }
    }
}

fn hops_string(hops: &Vec<Route6NextHop>) -> (r: String)
    ensures
        r@ == hops_text(wire::views(hops@)),
{
    let ghost s = wire::views(hops@);
    let mut out: String = "".to_owned();
    proof {
        reveal_strlit("");
    }
    let mut i: usize = 0;
    assert(s.take(0) =~= Seq::empty());
    assert(out@ =~= Seq::<char>::empty());
    while i < hops.len()
        invariant
            i <= hops@.len(),
            s == wire::views(hops@),
            out@ == hops_text(s.take(i as int)),
        decreases hops.len() - i,
    {
        assert(s.take(i + 1).drop_last() =~= s.take(i as int));
        assert(s.take(i + 1).last() == hops@[i as int]@);
        if i > 0 {
            out.append(", ");
        }
        out.append(hops[i].address.as_str());
        out.append("%");
        append_number(&mut out, hops[i].sw_if_index as u64);
        assert(out@ =~= hops_text(s.take(i + 1)));
        i = i + 1;
    }
    assert(s.take(i as int) =~= s);
    out
}

impl Tabled for Route6Status {
    open spec fn cells(v: reply::Route6StatusView) -> Seq<(Seq<char>, usize)> {
        seq![
            (slashed(v.prefix, v.prefix_len as nat), 40),
            (text::decimal_text(v.cost as nat), 6),
            (hops_text(v.next_hops), 0),
        ]
    }

    fn row(&self) -> (r: Vec<(String, usize)>) {
        let r: Vec<(String, usize)> = vec![
            with_slash(self.prefix.as_str(), self.prefix_len, 40),
            number(self.cost as u64, 6),
            (hops_string(&self.next_hops), 0),
        ];
        assert(wire::views(r@) =~= Self::cells(self@));
        r
    }
}

/// The head of the table of IPv6 routes.
pub open spec fn route6_head() -> Seq<(Seq<char>, usize)> {
    seq![("Prefix"@, 40), ("Cost"@, 6), ("Next Hops"@, 0)]
}

/// A table, or a line that says that there is nothing to show.
pub open spec fn table_text<T: Tabled>(
    head: Seq<(Seq<char>, usize)>,
    items: Seq<T::V>,
    nothing: Seq<char>,
) -> Seq<char> {
    if items.len() == 0 {
        nothing
    } else {
        row_text(head) + rows_text::<T>(items)
    }
}

fn table<T: Tabled>(head: &Vec<(String, usize)>, items: &Vec<T>, nothing: &str) -> (r: String)
    ensures
        r@ == table_text::<T>(wire::views(head@), wire::views(items@), nothing@),
{
    if items.len() == 0 {
        return nothing.to_owned();
    }
    let mut out: String = "".to_owned();
    proof {
        reveal_strlit("");
    }
    append_row(&mut out, head);
    append_rows(&mut out, items);
    assert(out@ =~= row_text(wire::views(head@)) + rows_text::<T>(wire::views(items@)));
    out
}

/// The text of a truth value.
pub open spec fn bool_text(b: bool) -> Seq<char> {
    if b {
        "true"@
    } else {
        "false"@
    }
}

/// The figures of an instance.
pub open spec fn figures_text(s: reply::StatusReplyView) -> Seq<char> {
    "Router ID:             "@ + s.router_id + "\nABR:                   "@ + bool_text(s.is_abr)
        + "\nAS-External LSAs:      "@ + text::decimal_text(s.as_external_lsa_count as nat)
        + "\nInstalled routes:      "@ + text::decimal_text(s.installed_route_count as nat)
        + "\n\nAreas:\n"@
}

/// The status of an instance.
pub open spec fn status_text(s: reply::StatusReplyView) -> Seq<char> {
    figures_text(s) + rows_text::<AreaStatus>(s.areas) + if s.summary_addresses.len() == 0 {
        Seq::empty()
    } else {
        "\nSummary addresses:\n"@ + rows_text::<SummaryAddressStatus>(s.summary_addresses)
    }
}

fn status_string(s: &StatusReply) -> (r: String)
    ensures
        r@ == status_text(s@),
{
    let mut out: String = "Router ID:             ".to_owned();
    out.append(s.router_id.as_str());
    out.append("\nABR:                   ");
    out.append(
        if s.is_abr {
            "true"
        } else {
            "false"
        },
    );
    out.append("\nAS-External LSAs:      ");
    append_number(&mut out, s.as_external_lsa_count as u64);
    out.append("\nInstalled routes:      ");
    append_number(&mut out, s.installed_route_count as u64);
    out.append("\n\nAreas:\n");
    assert(out@ =~= figures_text(s@));
    append_rows(&mut out, &s.areas);
    if s.summary_addresses.len() > 0 {
        let ghost before = out@;
        out.append("\nSummary addresses:\n");
        append_rows(&mut out, &s.summary_addresses);
        assert(out@ =~= status_text(s@));
    } else {
        assert(out@ =~= status_text(s@));
    }
    out
}

fn neighbors_string(r: &NeighborsReply) -> (s: String)
    ensures
        s@ == table_text::<NeighborStatus>(neighbor_head(), r@.neighbors, "No neighbors.\n"@),
{
    let head: Vec<(String, usize)> = vec![
        cell("Router ID", 16),
        cell("Address", 16),
        cell("Interface", 10),
        cell("State", 10),
        cell("Pri", 4),
        cell("DR", 16),
        cell("BDR", 16),
        cell("Dead", 0),
    ];
    assert(wire::views(head@) =~= neighbor_head());
    table(&head, &r.neighbors, "No neighbors.\n")
}

fn interfaces_string(r: &InterfacesReply) -> (s: String)
    ensures
        s@ == table_text::<InterfaceStatus>(interface_head(), r@.interfaces, "No interfaces.\n"@),
{
    let head: Vec<(String, usize)> = vec![
        cell("Name", 12),
        cell("Address", 16),
        cell("Area", 12),
        cell("State", 14),
        cell("Cost", 4),
        cell("Pri", 3),
        cell("Hello", 5),
        cell("Neighbors", 0),
    ];
    assert(wire::views(head@) =~= interface_head());
    table(&head, &r.interfaces, "No interfaces.\n")
}

fn database_string(r: &DatabaseReply) -> (s: String)
    ensures
        s@ == table_text::<LsaSummary>(database_head(), r@.lsas, "LSDB is empty.\n"@),
{
    let head: Vec<(String, usize)> = vec![
        cell("Area", 12),
        cell("Type", 16),
        cell("Link State ID", 16),
        cell("Adv Router", 16),
        cell("Age", 6),
        cell("Seq", 12),
        cell("Len", 0),
    ];
    assert(wire::views(head@) =~= database_head());
    table(&head, &r.lsas, "LSDB is empty.\n")
}

fn routes_string(r: &RoutesReply) -> (s: String)
    ensures
        s@ == table_text::<RouteStatus>(
            route_head(),
            r@.routes,
            "No OSPF routes installed.\n"@,
        ),
{
    let head: Vec<(String, usize)> = vec![
        cell("Prefix", 20),
        cell("Next Hop", 16),
        cell("Cost", 6),
        cell("sw_if_index", 0),
    ];
    assert(wire::views(head@) =~= route_head());
    table(&head, &r.routes, "No OSPF routes installed.\n")
}

fn routes6_string(r: &Routes6Reply) -> (s: String)
    ensures
        s@ == table_text::<Route6Status>(
            route6_head(),
            r@.routes,
            "No OSPFv3 routes installed.\n"@,
        ),
{
    let head: Vec<(String, usize)> = vec![
        cell("Prefix", 40),
        cell("Cost", 6),
        cell("Next Hops", 0),
    ];
    assert(wire::views(head@) =~= route6_head());
    table(&head, &r.routes, "No OSPFv3 routes installed.\n")
}

/// What is printed of a response, or what is reported of an error.
pub open spec fn response_text(r: reply::ControlResponseView) -> Result<Seq<char>, Seq<char>> {
    match r {
        reply::ControlResponseView::Status(s) => Ok(status_text(s)),
        reply::ControlResponseView::Status6(s) => Ok(status_text(s)),
        reply::ControlResponseView::Neighbors(n) => Ok(
            table_text::<NeighborStatus>(neighbor_head(), n.neighbors, "No neighbors.\n"@),
        ),
        reply::ControlResponseView::Neighbors6(n) => Ok(
            table_text::<NeighborStatus>(neighbor_head(), n.neighbors, "No neighbors.\n"@),
        ),
        reply::ControlResponseView::Interfaces(i) => Ok(
            table_text::<InterfaceStatus>(interface_head(), i.interfaces, "No interfaces.\n"@),
        ),
        reply::ControlResponseView::Interfaces6(i) => Ok(
            table_text::<InterfaceStatus>(interface_head(), i.interfaces, "No interfaces.\n"@),
        ),
        reply::ControlResponseView::Database(d) => Ok(
            table_text::<LsaSummary>(database_head(), d.lsas, "LSDB is empty.\n"@),
        ),
        reply::ControlResponseView::Database6(d) => Ok(
            table_text::<LsaSummary>(database_head(), d.lsas, "LSDB is empty.\n"@),
        ),
        reply::ControlResponseView::Routes(x) => Ok(
            table_text::<RouteStatus>(route_head(), x.routes, "No OSPF routes installed.\n"@),
        ),
        reply::ControlResponseView::Routes6(x) => Ok(
            table_text::<Route6Status>(
                route6_head(),
                x.routes,
                "No OSPFv3 routes installed.\n"@,
            ),
        ),
        reply::ControlResponseView::Error { error } => Err("Error: "@ + error),
    }
}

/// What is printed of a response, or what is reported of an error.
pub fn print_response(resp: &ControlResponse) -> (r: Result<String, String>)
    ensures
        match (r, response_text(resp@)) {
            (Ok(s), Ok(t)) => s@ == t,
            (Err(s), Err(t)) => s@ == t,
            _ => false,
        },
{
    match resp {
        ControlResponse::Status(s) => Ok(status_string(s)),
        ControlResponse::Status6(s) => Ok(status_string(s)),
        ControlResponse::Neighbors(n) => Ok(neighbors_string(n)),
        ControlResponse::Neighbors6(n) => Ok(neighbors_string(n)),
        ControlResponse::Interfaces(i) => Ok(interfaces_string(i)),
        ControlResponse::Interfaces6(i) => Ok(interfaces_string(i)),
        ControlResponse::Database(d) => Ok(database_string(d)),
        ControlResponse::Database6(d) => Ok(database_string(d)),
        ControlResponse::Routes(x) => Ok(routes_string(x)),
        ControlResponse::Routes6(x) => Ok(routes6_string(x)),
        ControlResponse::Error { error } => {
            let mut s: String = "Error: ".to_owned();
            s.append(error.as_str());
            Err(s)
        },
    }
}

} // verus!
