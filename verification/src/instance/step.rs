//! The event loop of an instance: what each event changes and what it causes. Whoever runs the loop
//! hands the events in and carries the effects out.
use vstd::prelude::*;

use crate::config::restart::{RestartReason, RestartReasonView};
use crate::config::OspfDaemonConfig;
use crate::instance;
use crate::instance::daemon;
use crate::instance::daemon::{AuthWarnings, Departure, DueHello, Reception, ReceptionView, Snapshot};
use crate::instance::distinct;
use crate::instance::exchange;
use crate::instance::originate;
use crate::instance::originate::External;
use crate::instance::routes;
use crate::instance::{OspfInstance, OspfInstanceView, Outgoing};
use crate::io;
use crate::io::{RxPacket, TxPacket};
use crate::lsdb;
use crate::packet::auth;
use crate::packet::auth::apply_auth;
use crate::packet::PacketError;
use crate::proto::interface;
use crate::proto::spf::SpfRoute;
use crate::wire;
use crate::wire::copy_bytes;

verus! {

broadcast use {wire::lemma_views_push, wire::lemma_views_update};

/// What happens to a running instance.
#[derive(Debug)]
pub enum Event {
    /// A packet arrived. The flag says whether its keyed digest is right, where it has one.
    Received(RxPacket, bool),
    /// A second passed: time for Hellos.
    HelloTick,
    /// A second passed: time to look for silent neighbors.
    NeighborTick,
    /// Time to look through the databases.
    LsdbTick,
    /// The forwarder reported its interfaces.
    Refreshed(Vec<Snapshot>),
    /// The forwarder reported what may be redistributed.
    Discovered(Vec<External>),
    /// A scheduled route computation is due.
    SpfDue,
    /// The configuration was read again.
    Reloaded(OspfDaemonConfig),
    /// The configuration could not be read again.
    ReloadFailed,
    /// The daemon ends.
    Shutdown,
}

/// What happens to a running instance.
pub enum EventView {
    Received(io::RxPacketView, bool),
    HelloTick,
    NeighborTick,
    LsdbTick,
    Refreshed(Seq<Snapshot>),
    Discovered(Seq<originate::ExternalView>),
    SpfDue,
    Reloaded(OspfDaemonConfig),
    ReloadFailed,
    Shutdown,
}

impl View for Event {
    type V = EventView;

    open spec fn view(&self) -> EventView {
        match *self {
            Event::Received(p, b) => EventView::Received(p@, b),
            Event::HelloTick => EventView::HelloTick,
            Event::NeighborTick => EventView::NeighborTick,
            Event::LsdbTick => EventView::LsdbTick,
            Event::Refreshed(s) => EventView::Refreshed(s@),
            Event::Discovered(s) => EventView::Discovered(wire::views(s@)),
            Event::SpfDue => EventView::SpfDue,
            Event::Reloaded(c) => EventView::Reloaded(c),
            Event::ReloadFailed => EventView::ReloadFailed,
            Event::Shutdown => EventView::Shutdown,
        }
    }
}

/// What an event causes.
#[derive(Debug)]
pub enum Effect {
    /// The packet goes out.
    Send(TxPacket),
    /// The packet goes out with a keyed digest: of the key of the interface at the position, under
    /// the number.
    Sign(usize, u32, TxPacket),
    /// The authentication of a packet that came in through an interface from an address is wrong;
    /// this is worth a warning.
    WarnAuth(u32, u32),
    /// As before, but a warning was given less than a minute ago.
    NoteAuth(u32, u32),
    /// A packet cannot be read.
    Unreadable(PacketError),
    /// What may be redistributed has to be found again.
    Discover,
    /// The routes replace those that were handed out before.
    Push(Vec<SpfRoute>),
    /// A change of the configuration takes a restart.
    Restart(RestartReason),
    /// The configuration was taken over; the flag says whether that changed anything.
    Applied(bool),
    /// The configuration stays as it was.
    Kept,
    /// The routes are withdrawn and the loop ends.
    Leave,
}

/// What an event causes.
pub enum EffectView {
    Send(io::TxPacketView),
    Sign(usize, u32, io::TxPacketView),
    WarnAuth(u32, u32),
    NoteAuth(u32, u32),
    Unreadable(PacketError),
    Discover,
    Push(Seq<SpfRoute>),
    Restart(RestartReasonView),
    Applied(bool),
    Kept,
    Leave,
}

impl View for Effect {
    type V = EffectView;

    open spec fn view(&self) -> EffectView {
        match *self {
            Effect::Send(p) => EffectView::Send(p@),
            Effect::Sign(k, n, p) => EffectView::Sign(k, n, p@),
            Effect::WarnAuth(i, a) => EffectView::WarnAuth(i, a),
            Effect::NoteAuth(i, a) => EffectView::NoteAuth(i, a),
            Effect::Unreadable(e) => EffectView::Unreadable(e),
            Effect::Discover => EffectView::Discover,
            Effect::Push(rs) => EffectView::Push(rs@),
            Effect::Restart(r) => EffectView::Restart(r@),
            Effect::Applied(b) => EffectView::Applied(b),
            Effect::Kept => EffectView::Kept,
            Effect::Leave => EffectView::Leave,
        }
    }
}

/// How a packet goes out of the interface at position `k`.
pub open spec fn leaving(
    is: Seq<interface::OspfInterfaceView>,
    k: usize,
    n: u32,
    p: io::TxPacketView,
) -> EffectView {
    match auth::authenticated(p.data, is[k as int].auth_key) {
        Some(data) => EffectView::Send(io::TxPacketView { data, ..p }),
        None => EffectView::Sign(k, n, p),
    }
}

/// How packets go out.
pub open spec fn departures(
    is: Seq<interface::OspfInterfaceView>,
    ds: Seq<daemon::DepartureView>,
) -> Seq<EffectView> {
    Seq::new(ds.len(), |i: int| leaving(is, ds[i].interface, ds[i].crypto_seq, ds[i].packet))
}

/// How one Hello goes out: to each of its destinations.
pub open spec fn greeting(
    is: Seq<interface::OspfInterfaceView>,
    h: daemon::DueHelloView,
) -> Seq<EffectView> {
    Seq::new(
        h.destinations.len(),
        |i: int|
            leaving(
                is,
                h.interface,
                h.crypto_seq,
                io::TxPacketView {
                    sw_if_index: h.sw_if_index,
                    src_addr: h.src_addr,
                    dst_addr: h.destinations[i],
                    data: h.data,
                },
            ),
    )
}

/// How Hellos go out.
pub open spec fn greetings(
    is: Seq<interface::OspfInterfaceView>,
    hs: Seq<daemon::DueHelloView>,
) -> Seq<EffectView>
    decreases hs.len(),
{
    if hs.len() == 0 {
        Seq::empty()
    } else {
        greetings(is, hs.drop_last()) + greeting(is, hs.last())
    }
}

/// The reasons as effects.
pub open spec fn restarts(rs: Seq<RestartReasonView>) -> Seq<EffectView> {
    Seq::new(rs.len(), |i: int| EffectView::Restart(rs[i]))
}

/// Whether an instance that has the packets `outs` to send becomes `after` and sends them as `fx`.
pub open spec fn sends(
    me: OspfInstanceView,
    outs: Seq<instance::OutgoingView>,
    after: OspfInstanceView,
    fx: Seq<EffectView>,
) -> bool {
    let d = me.departing(outs);
    after == d.0 && fx == departures(d.0.interfaces, d.1)
}

/// Whether what came of a packet from `src` on an interface can lead from `me` to `after` and cause
/// `fx`, `ws` being the warnings that were given before and `ws2` those that were given after.
pub open spec fn settles(
    me: OspfInstanceView,
    r: ReceptionView,
    ws: Seq<(u32, u32, u64)>,
    idx: u32,
    src: u32,
    now: u64,
    after: OspfInstanceView,
    ws2: Seq<(u32, u32, u64)>,
    fx: Seq<EffectView>,
) -> bool {
    match r {
        ReceptionView::Refused => {
            let w = daemon::warned(ws, idx, src, now);
            &&& after == me
            &&& ws2 == w.0
            &&& fx == seq![
                if w.1 {
                    EffectView::WarnAuth(idx, src)
                } else {
                    EffectView::NoteAuth(idx, src)
                },
            ]
        },
        ReceptionView::Invalid(e) => {
            &&& after == me
            &&& ws2 == ws
            &&& fx == seq![EffectView::Unreadable(e)]
        },
        ReceptionView::Taken(outs, false) => {
            &&& ws2 == ws
            &&& sends(me, outs, after, fx)
        },
        ReceptionView::Taken(outs, true) => {
            &&& ws2 == ws
            &&& exists|ts: Seq<routes::AreaTableView>|
                {
                    let s = me.summaries(routes::announced(ts), now);
                    #[trigger] me.are_tables(now, ts) && sends(
                        s.0,
                        outs + s.0.flood_own(s.1),
                        after,
                        fx,
                    )
                }
        },
    }
}

impl OspfInstanceView {
    /// Whether an arriving packet can lead to `after` and cause `fx`, `ws` being the warnings that
    /// were given before and `ws2` those that were given after.
    pub open spec fn takes(
        self,
        ws: Seq<(u32, u32, u64)>,
        p: io::RxPacketView,
        digest: bool,
        now: u64,
        after: OspfInstanceView,
        ws2: Seq<(u32, u32, u64)>,
        fx: Seq<EffectView>,
    ) -> bool {
        let r = self.receiving(p, digest, now);
        settles(r.0, r.1, ws, p.sw_if_index, p.src_addr, now, after, ws2, fx)
    }

    /// Whether an event can lead to `after` and cause `fx`, `ws` being the warnings that were given
    /// before and `ws2` those that were given after.
    pub open spec fn steps(
        self,
        ws: Seq<(u32, u32, u64)>,
        e: EventView,
        now: u64,
        after: OspfInstanceView,
        ws2: Seq<(u32, u32, u64)>,
        fx: Seq<EffectView>,
    ) -> bool {
        match e {
            EventView::Received(p, digest) => self.takes(ws, p, digest, now, after, ws2, fx),
            EventView::HelloTick => {
                let a = self.greeted_all(now).waited_all(now);
                let b = a.opened_all(now);
                let d = b.requested_all(now).departing(
                    exchange::all_opening_packets(a.interfaces, a.router_id, now)
                        + exchange::all_repeated_requests(b.interfaces, b.router_id, now),
                );
                &&& ws2 == ws
                &&& after == d.0
                &&& fx == greetings(
                    d.0.interfaces,
                    daemon::due_hellos(self.interfaces, self.router_id, now),
                ) + departures(d.0.interfaces, d.1)
            },
            EventView::NeighborTick => {
                &&& ws2 == ws
                &&& after == self.after_neighbor_tick(now)
                &&& fx == Seq::<EffectView>::empty()
            },
            EventView::LsdbTick => {
                let d = self.after_lsdb_tick(now).departing(self.maintained(now).1);
                &&& ws2 == ws
                &&& after == d.0
                &&& fx == departures(d.0.interfaces, d.1) + (if lsdb::stale_keys(
                    self.as_external_lsdb.entries,
                    now,
                ).len() > 0 {
                    seq![EffectView::Discover]
                } else {
                    Seq::empty()
                })
            },
            EventView::Refreshed(ss) => {
                &&& ws2 == ws
                &&& after == self.after_refresh(ss, now)
                &&& fx == Seq::<EffectView>::empty()
            },
            EventView::Discovered(es) => {
                let r = self.reannounced(es, now);
                &&& ws2 == ws
                &&& sends(
                    r.0,
                    if r.1.len() > 0 {
                        r.0.flood(usize::MAX, r.0.router_id, r.1)
                    } else {
                        Seq::empty()
                    },
                    after,
                    fx,
                )
            },
            EventView::SpfDue => {
                &&& ws2 == ws
                &&& after == self.computed_at(now)
                &&& exists|ts: Seq<routes::AreaTableView>| #[trigger]
                    self.are_tables(now, ts) && fx == seq![
                        EffectView::Push(self.all_routes(now, ts)),
                    ]
            },
            EventView::Reloaded(c) => {
                let r = self.reconfigured(c, now);
                let t = if r.1 {
                    r.0.scheduled(now)
                } else {
                    r.0
                };
                let d = t.departing(t.flood_own(self.reissued_by(c)));
                &&& ws2 == ws
                &&& after == d.0
                &&& fx == (restarts(self.restart_reasons(c)) + departures(
                    d.0.interfaces,
                    d.1,
                )).push(EffectView::Applied(r.1)) + (if self.reannounces(c) {
                    seq![EffectView::Discover]
                } else {
                    Seq::empty()
                })
            },
            EventView::ReloadFailed => {
                &&& ws2 == ws
                &&& after == self
                &&& fx == seq![EffectView::Kept]
            },
            EventView::Shutdown => {
                &&& ws2 == ws
                &&& after == self
                &&& fx == seq![EffectView::Leave]
            },
        }
    }
}

impl OspfInstance {
    /// How a packet goes out of the interface at position `k`.
    fn release(&self, k: usize, n: u32, p: TxPacket) -> (r: Effect)
        requires
            k < self.interfaces@.len(),
        ensures
            r@ == leaving(self@.interfaces, k, n, p@),
    {
        assert(self.interfaces@[k as int]@ == self@.interfaces[k as int]);
        match apply_auth(copy_bytes(&p.data), &self.interfaces[k].auth_key) {
            Some(data) => Effect::Send(
                TxPacket {
                    sw_if_index: p.sw_if_index,
                    src_addr: p.src_addr,
                    dst_addr: p.dst_addr,
                    data,
                },
            ),
            None => Effect::Sign(k, n, p),
        }
    }

    /// Appends how packets go out.
    fn release_all(&self, ds: Vec<Departure>, fx: &mut Vec<Effect>)
        requires
            forall|i: int|
                0 <= i < ds@.len() ==> (#[trigger] ds@[i]).interface < self.interfaces@.len(),
        ensures
            wire::views(final(fx)@) == wire::views(old(fx)@) + departures(
                self@.interfaces,
                wire::views(ds@),
            ),
    {
        let ghost start = wire::views(fx@);
        let ghost all = departures(self@.interfaces, wire::views(ds@));
        let mut i: usize = 0;
        assert(start + all.take(0) =~= start);
        while i < ds.len()
            invariant
                i <= ds@.len(),
                all == departures(self@.interfaces, wire::views(ds@)),
                wire::views(fx@) == start + all.take(i as int),
                forall|k: int|
                    0 <= k < ds@.len() ==> (#[trigger] ds@[k]).interface < self.interfaces@.len(),
            decreases ds.len() - i,
        {
            let d = &ds[i];
            assert(wire::views(ds@)[i as int] == d@);
            let p = TxPacket {
                sw_if_index: d.packet.sw_if_index,
                src_addr: d.packet.src_addr,
                dst_addr: d.packet.dst_addr,
                data: copy_bytes(&d.packet.data),
            };
            assert(p@ == d.packet@);
            fx.push(self.release(d.interface, d.crypto_seq, p));
            assert(wire::views(fx@) =~= start + all.take(i + 1));
            i = i + 1;
        }
        assert(all.take(i as int) =~= all);
    }

    /// Appends how one Hello goes out.
    fn greet(&self, h: &DueHello, fx: &mut Vec<Effect>)
        requires
            h.interface < self.interfaces@.len(),
        ensures
            wire::views(final(fx)@) == wire::views(old(fx)@) + greeting(self@.interfaces, h@),
    {
        let ghost start = wire::views(fx@);
        let ghost all = greeting(self@.interfaces, h@);
        let mut i: usize = 0;
        assert(start + all.take(0) =~= start);
        while i < h.destinations.len()
            invariant
                i <= h.destinations@.len(),
                h.interface < self.interfaces@.len(),
                all == greeting(self@.interfaces, h@),
                wire::views(fx@) == start + all.take(i as int),
            decreases h.destinations.len() - i,
        {
            let p = TxPacket {
                sw_if_index: h.sw_if_index,
                src_addr: h.src_addr,
                dst_addr: h.destinations[i],
                data: copy_bytes(&h.data),
            };
            fx.push(self.release(h.interface, h.crypto_seq, p));
            assert(wire::views(fx@) =~= start + all.take(i + 1));
            i = i + 1;
        }
        assert(all.take(i as int) =~= all);
    }

    /// Sends packets.
    fn send_out(&mut self, outs: Vec<Outgoing>, fx: &mut Vec<Effect>)
        ensures
            ({
                let d = old(self)@.departing(wire::views(outs@));
                &&& final(self)@ == d.0
                &&& wire::views(final(fx)@) == wire::views(old(fx)@) + departures(
                    d.0.interfaces,
                    d.1,
                )
            }),
    {
        let ghost me = self@;
        let ghost s = wire::views(outs@);
        let _count: usize = self.interfaces.len();
        let ds = self.depart(outs);
        proof {
            lemma_departing_in(me, s);
            let d = me.departing(s);
            assert(d.0 == self@ && d.1 == wire::views(ds@));
            assert(self@.interfaces.len() == self.interfaces@.len());
            assert forall|i: int| 0 <= i < ds@.len() implies (#[trigger] ds@[i]).interface
                < self.interfaces@.len() by {
                assert(d.1[i] == ds@[i]@);
            }
        }
        self.release_all(ds, fx);
    }

    /// Takes an event in and says what it causes. Of each peer whose authentication fails, `warnings`
    /// remembers when it was last warned of.
    pub fn step(&mut self, warnings: &mut AuthWarnings, event: Event, now: u64) -> (fx: Vec<Effect>)
        requires
            event matches Event::Refreshed(ss) ==> forall|k: int|
                0 <= k < ss@.len() ==> ((#[trigger] ss@[k]).address matches Some(a) ==> a.1 <= 32),
            event is Discovered ==> forall|k: int|
                0 <= k < old(self)@.summary_addresses.len() && !(
                #[trigger] old(self)@.summary_addresses[k]).no_advertise
                    ==> old(self)@.summary_addresses[k].prefix_len <= 32,
        ensures
            old(self)@.steps(
                old(warnings).last@,
                event@,
                now,
                final(self)@,
                final(warnings).last@,
                wire::views(fx@),
            ),
    {
        let mut fx: Vec<Effect> = Vec::new();
        assert(wire::views(fx@) =~= Seq::empty());
        match event {
            Event::Received(rx, digest) => {
                self.take_in(warnings, &rx, digest, now, &mut fx);
            },
            Event::HelloTick => {
                self.tick(now, &mut fx);
            },
            Event::NeighborTick => {
                self.on_neighbor_tick(now);
            },
            Event::LsdbTick => {
                let (outs, due) = self.on_lsdb_tick(now);
                self.send_out(outs, &mut fx);
                if due {
                    fx.push(Effect::Discover);
                }
                assert(wire::views(fx@) =~= departures(
                    self@.interfaces,
                    old(self)@.after_lsdb_tick(now).departing(old(self)@.maintained(now).1).1,
                ) + (if due {
                    seq![EffectView::Discover]
                } else {
                    Seq::empty()
                }));
            },
            Event::Refreshed(ss) => {
                self.on_interface_refresh(&ss, now);
            },
            Event::Discovered(es) => {
                let ls = self.reannounce(&es, now);
                let mut outs: Vec<Outgoing> = Vec::new();
                assert(wire::views(outs@) =~= Seq::empty());
                if ls.len() > 0 {
                    let me: u32 = self.router_id;
                    self.flood_lsas_to_others(usize::MAX, me, &ls, &mut outs);
                    assert(wire::views(outs@) =~= self@.flood(usize::MAX, me, wire::views(ls@)));
                }
                self.send_out(outs, &mut fx);
                assert(wire::views(fx@) =~= Seq::<EffectView>::empty() + wire::views(fx@));
            },
            Event::SpfDue => {
                let rs = self.run_spf(now);
                let ghost got = rs@;
                fx.push(Effect::Push(rs));
                assert(wire::views(fx@) =~= seq![EffectView::Push(got)]);
            },
            Event::Reloaded(c) => {
                let reasons = self.restart_reasons(&c);
                push_reasons(reasons, &mut fx);
                let r = self.apply_config(&c, now);
                if r.changed {
                    self.schedule_spf(now);
                }
                let mut outs: Vec<Outgoing> = Vec::new();
                assert(wire::views(outs@) =~= Seq::empty());
                self.flood_own_lsas(&r.router_lsas, &mut outs);
                assert(wire::views(outs@) =~= self@.flood_own(wire::views(r.router_lsas@)));
                self.send_out(outs, &mut fx);
                fx.push(Effect::Applied(r.changed));
                if r.reannounce {
                    fx.push(Effect::Discover);
                }
                proof {
                    let q = old(self)@.reconfigured(c, now);
                    let t = if q.1 {
                        q.0.scheduled(now)
                    } else {
                        q.0
                    };
                    let d = t.departing(t.flood_own(old(self)@.reissued_by(c)));
                    assert(wire::views(fx@) =~= (restarts(old(self)@.restart_reasons(c))
                        + departures(d.0.interfaces, d.1)).push(EffectView::Applied(q.1)) + (
                    if old(self)@.reannounces(c) {
                        seq![EffectView::Discover]
                    } else {
                        Seq::empty()
                    }));
                }
            },
            Event::ReloadFailed => {
                fx.push(Effect::Kept);
                assert(wire::views(fx@) =~= seq![EffectView::Kept]);
            },
            Event::Shutdown => {
                fx.push(Effect::Leave);
                assert(wire::views(fx@) =~= seq![EffectView::Leave]);
            },
        }
        fx
    }

    /// Takes an arriving packet in.
    fn take_in(
        &mut self,
        warnings: &mut AuthWarnings,
        rx: &RxPacket,
        digest: bool,
        now: u64,
        fx: &mut Vec<Effect>,
    )
        requires
            wire::views(old(fx)@) == Seq::<EffectView>::empty(),
        ensures
            old(self)@.takes(
                old(warnings).last@,
                rx@,
                digest,
                now,
                final(self)@,
                final(warnings).last@,
                wire::views(final(fx)@),
            ),
    {
        let r = self.receive(rx, digest, now);
        self.settle(r, warnings, rx.sw_if_index, rx.src_addr, now, fx);
    }

    /// Draws the consequences of what came of a packet.
    fn settle(
        &mut self,
        r: Reception,
        warnings: &mut AuthWarnings,
        idx: u32,
        src: u32,
        now: u64,
        fx: &mut Vec<Effect>,
    )
        requires
            wire::views(old(fx)@) == Seq::<EffectView>::empty(),
        ensures
            settles(
                old(self)@,
                r@,
                old(warnings).last@,
                idx,
                src,
                now,
                final(self)@,
                final(warnings).last@,
                wire::views(final(fx)@),
            ),
    {
        match r {
            Reception::Refused => {
                if warnings.should_warn(idx, src, now) {
                    fx.push(Effect::WarnAuth(idx, src));
                } else {
                    fx.push(Effect::NoteAuth(idx, src));
                }
                assert(wire::views(fx@) =~= seq![wire::views(fx@)[0]]);
            },
            Reception::Invalid(e) => {
                fx.push(Effect::Unreadable(e));
                assert(wire::views(fx@) =~= seq![EffectView::Unreadable(e)]);
            },
            Reception::Taken(outs, due) => {
                let ghost first = wire::views(outs@);
                let ghost mid = self@;
                if due {
                    self.announce_and_send(outs, now, fx);
                } else {
                    self.send_out(outs, fx);
                    assert(wire::views(fx@) =~= departures(
                        self@.interfaces,
                        mid.departing(first).1,
                    ));
                }
            },
        }
    }

    /// Announces the routes between areas anew and sends the updates behind the given packets.
    fn announce_and_send(&mut self, outs: Vec<Outgoing>, now: u64, fx: &mut Vec<Effect>)
        requires
            wire::views(old(fx)@) == Seq::<EffectView>::empty(),
        ensures
            exists|ts: Seq<routes::AreaTableView>|
                {
                    let s = old(self)@.summaries(routes::announced(ts), now);
                    #[trigger] old(self)@.are_tables(now, ts) && sends(
                        s.0,
                        wire::views(outs@) + s.0.flood_own(s.1),
                        final(self)@,
                        wire::views(final(fx)@),
                    )
                },
    {
        let ghost mid = self@;
        let ghost first = wire::views(outs@);
        let mut outs = outs;
        self.announce_areas(now, &mut outs);
        let ghost ts = choose|ts: Seq<routes::AreaTableView>| #[trigger]
            mid.are_tables(now, ts) && self@ == mid.summaries(routes::announced(ts), now).0
                && wire::views(outs@) == first + self@.flood_own(
                mid.summaries(routes::announced(ts), now).1,
            );
        let ghost s = mid.summaries(routes::announced(ts), now);
        let ghost sent = wire::views(outs@);
        self.send_out(outs, fx);
        assert(wire::views(fx@) =~= departures(self@.interfaces, s.0.departing(sent).1));
        assert(mid.are_tables(now, ts) && sends(
            s.0,
            first + s.0.flood_own(s.1),
            self@,
            wire::views(fx@),
        ));
    }

    /// What happens every second.
    fn tick(&mut self, now: u64, fx: &mut Vec<Effect>)
        requires
            wire::views(old(fx)@) == Seq::<EffectView>::empty(),
        ensures
            ({
                let a = old(self)@.greeted_all(now).waited_all(now);
                let b = a.opened_all(now);
                let d = b.requested_all(now).departing(
                    exchange::all_opening_packets(a.interfaces, a.router_id, now)
                        + exchange::all_repeated_requests(b.interfaces, b.router_id, now),
                );
                &&& final(self)@ == d.0
                &&& wire::views(final(fx)@) == greetings(
                    d.0.interfaces,
                    daemon::due_hellos(old(self)@.interfaces, old(self)@.router_id, now),
                ) + departures(d.0.interfaces, d.1)
            }),
    {
        let ghost me = self@;
        let ghost a = me.greeted_all(now).waited_all(now);
        let ghost b = a.opened_all(now);
        let _count: usize = self.interfaces.len();
        let (hellos, outs) = self.on_hello_tick(now);
        let ghost hs = wire::views(hellos@);
        let ghost sent = wire::views(outs@);
        let ghost mid = self@;
        let ds = self.depart(outs);
        proof {
            lemma_departing_in(mid, sent);
            lemma_due_in(me.interfaces, me.router_id, now);
            assert(mid.interfaces.len() == me.interfaces.len());
            assert forall|i: int| 0 <= i < ds@.len() implies (#[trigger] ds@[i]).interface
                < self.interfaces@.len() by {
                assert(wire::views(ds@)[i] == ds@[i]@);
            }
        }
        let mut i: usize = 0;
        assert(hs.take(0) =~= Seq::empty());
        while i < hellos.len()
            invariant
                i <= hellos@.len(),
                hs == wire::views(hellos@),
                forall|k: int|
                    0 <= k < hs.len() ==> (#[trigger] hs[k]).interface < self.interfaces@.len(),
                wire::views(fx@) == greetings(self@.interfaces, hs.take(i as int)),
            decreases hellos.len() - i,
        {
            assert(hs.take(i + 1).drop_last() =~= hs.take(i as int));
            assert(hs[i as int] == hellos@[i as int]@);
            self.greet(&hellos[i], fx);
            i = i + 1;
        }
        assert(hs.take(i as int) =~= hs);
        self.release_all(ds, fx);
    }
}

/// Appends the reasons for a restart.
fn push_reasons(reasons: Vec<RestartReason>, fx: &mut Vec<Effect>)
    ensures
        wire::views(final(fx)@) == wire::views(old(fx)@) + restarts(wire::views(reasons@)),
{
    let ghost start = wire::views(fx@);
    let ghost all = restarts(wire::views(reasons@));
    let mut i: usize = 0;
    assert(start + all.take(0) =~= start);
    while i < reasons.len()
        invariant
            i <= reasons@.len(),
            all == restarts(wire::views(reasons@)),
            wire::views(fx@) == start + all.take(i as int),
        decreases reasons.len() - i,
    {
        assert(wire::views(reasons@)[i as int] == reasons@[i as int]@);
        fx.push(Effect::Restart(reasons[i].duplicate()));
        assert(wire::views(fx@) =~= start + all.take(i + 1));
        i = i + 1;
    }
    assert(all.take(i as int) =~= all);
}

proof fn lemma_departing_in(me: OspfInstanceView, outs: Seq<instance::OutgoingView>)
    requires
        me.interfaces.len() <= usize::MAX,
    ensures
        me.departing(outs).0.interfaces.len() == me.interfaces.len(),
        forall|i: int|
            0 <= i < me.departing(outs).1.len() ==> (#[trigger] me.departing(outs).1[i]).interface
                < me.interfaces.len(),
    decreases outs.len(),
{
    if outs.len() > 0 {
        lemma_departing_in(me, outs.drop_last());
        let front = me.departing(outs.drop_last());
        lemma_iface_pos(front.0.interfaces, outs.last().0, 0);
    }
}

proof fn lemma_iface_pos(s: Seq<interface::OspfInterfaceView>, idx: u32, from: int)
    requires
        0 <= from,
    ensures
        instance::iface_pos(s, idx, from) matches Some(i) ==> from <= i < s.len(),
    decreases s.len() - from,
{
    if from < s.len() && s[from].sw_if_index != idx {
        lemma_iface_pos(s, idx, from + 1);
    }
}

proof fn lemma_due_in(is: Seq<interface::OspfInterfaceView>, me: u32, now: u64)
    requires
        is.len() <= usize::MAX,
    ensures
        forall|i: int|
            0 <= i < daemon::due_hellos(is, me, now).len() ==> (#[trigger] daemon::due_hellos(
                is,
                me,
                now,
            )[i]).interface < is.len(),
    decreases is.len(),
{
    if is.len() > 0 {
        lemma_due_in(is.drop_last(), me, now);
        let front = daemon::due_hellos(is.drop_last(), me, now);
        let all = daemon::due_hellos(is, me, now);
        assert forall|i: int| 0 <= i < all.len() implies (#[trigger] all[i]).interface < is.len() by {
            if i < front.len() {
                assert(all[i] == front[i]);
            } else {
                assert((is.len() - 1) as usize == is.len() - 1);
            }
        }
    }
}

proof fn lemma_departing_wf(me: OspfInstanceView, outs: Seq<instance::OutgoingView>)
    requires
        me.wf(),
    ensures
        me.departing(outs).0.wf(),
    decreases outs.len(),
{
    if outs.len() > 0 {
        lemma_departing_wf(me, outs.drop_last());
        let front = me.departing(outs.drop_last()).0;
        lemma_iface_pos(front.interfaces, outs.last().0, 0);
        match instance::iface_pos(front.interfaces, outs.last().0, 0) {
            Some(i) => {
                assert(front.interfaces[i].wf());
                assert(front.interfaces[i].counted().wf());
            },
            None => {},
        }
    }
}

proof fn lemma_settled_wf(
    me: OspfInstanceView,
    r: ReceptionView,
    ws: Seq<(u32, u32, u64)>,
    idx: u32,
    src: u32,
    now: u64,
    after: OspfInstanceView,
    ws2: Seq<(u32, u32, u64)>,
    fx: Seq<EffectView>,
)
    requires
        me.wf(),
        settles(me, r, ws, idx, src, now, after, ws2, fx),
    ensures
        after.wf(),
{
    match r {
        ReceptionView::Taken(outs, false) => {
            lemma_departing_wf(me, outs);
        },
        ReceptionView::Taken(outs, true) => {
            let ts = choose|ts: Seq<routes::AreaTableView>|
                {
                    let s = me.summaries(routes::announced(ts), now);
                    #[trigger] me.are_tables(now, ts) && sends(
                        s.0,
                        outs + s.0.flood_own(s.1),
                        after,
                        fx,
                    )
                };
            let s = me.summaries(routes::announced(ts), now);
            distinct::lemma_summaries_wf(me, routes::announced(ts), now);
            lemma_departing_wf(s.0, outs + s.0.flood_own(s.1));
        },
        _ => {},
    }
}

proof fn lemma_received_wf(me: OspfInstanceView, p: io::RxPacketView, digest: bool, now: u64)
    requires
        me.wf(),
    ensures
        me.receiving(p, digest, now).0.wf(),
{
    match crate::packet::OspfPacketView::spec_parse(p.data) {
        Ok(q) => {
            distinct::lemma_packet_wf(me, p.sw_if_index, p.src_addr, q, now);
        },
        Err(_) => {},
    }
}

/// Whatever happens, no area, neighbor or LSA is ever listed twice.
pub proof fn lemma_step_wf(
    me: OspfInstanceView,
    ws: Seq<(u32, u32, u64)>,
    e: EventView,
    now: u64,
    after: OspfInstanceView,
    ws2: Seq<(u32, u32, u64)>,
    fx: Seq<EffectView>,
)
    requires
        me.wf(),
        me.steps(ws, e, now, after, ws2, fx),
    ensures
        after.wf(),
{
    match e {
        EventView::Received(p, digest) => {
            let r = me.receiving(p, digest, now);
            lemma_received_wf(me, p, digest, now);
            lemma_settled_wf(r.0, r.1, ws, p.sw_if_index, p.src_addr, now, after, ws2, fx);
        },
        EventView::HelloTick => {
            let g = me.greeted_all(now);
            let a = g.waited_all(now);
            let b = a.opened_all(now);
            distinct::lemma_timers_wf(me, now);
            distinct::lemma_timers_wf(g, now);
            distinct::lemma_timers_wf(a, now);
            distinct::lemma_timers_wf(b, now);
            lemma_departing_wf(
                b.requested_all(now),
                exchange::all_opening_packets(a.interfaces, a.router_id, now)
                    + exchange::all_repeated_requests(b.interfaces, b.router_id, now),
            );
        },
        EventView::NeighborTick => {
            distinct::lemma_timers_wf(me, now);
        },
        EventView::LsdbTick => {
            distinct::lemma_timers_wf(me, now);
            lemma_departing_wf(me.after_lsdb_tick(now), me.maintained(now).1);
        },
        EventView::Refreshed(ss) => {
            distinct::lemma_refresh_wf(me, ss, now);
        },
        EventView::Discovered(es) => {
            let r = me.reannounced(es, now);
            distinct::lemma_reannounced_wf(me, es, now);
            lemma_departing_wf(
                r.0,
                if r.1.len() > 0 {
                    r.0.flood(usize::MAX, r.0.router_id, r.1)
                } else {
                    Seq::empty()
                },
            );
        },
        EventView::Reloaded(c) => {
            let r = me.reconfigured(c, now);
            let t = if r.1 {
                r.0.scheduled(now)
            } else {
                r.0
            };
            distinct::lemma_reload_wf(me, c, now);
            lemma_departing_wf(t, t.flood_own(me.reissued_by(c)));
        },
        _ => {},
    }
}

/// A packet whose authentication is wrong, that cannot be read or that comes in through an unknown
/// interface changes nothing and is not answered.
pub proof fn lemma_untrusted_ignored(
    me: OspfInstanceView,
    ws: Seq<(u32, u32, u64)>,
    p: io::RxPacketView,
    digest: bool,
    now: u64,
    after: OspfInstanceView,
    ws2: Seq<(u32, u32, u64)>,
    fx: Seq<EffectView>,
)
    requires
        me.steps(ws, EventView::Received(p, digest), now, after, ws2, fx),
        !me.trusts(p, digest) || crate::packet::OspfPacketView::spec_parse(p.data) is Err,
    ensures
        after == me,
        fx.len() == 1,
        !(fx[0] is Send) && !(fx[0] is Sign),
{
}

} // verus!
