//! The event loop of an instance: what each event changes and what it causes. Whoever runs the loop
//! hands the events in and carries the effects out.
use vstd::prelude::*;

use crate::config::restart::{RestartReason, RestartReasonView};
use crate::config::Ospf6DaemonConfig;
use crate::daemon_v3;
use crate::daemon_v3::{spf_needed, SnapshotV3, SpfMark};
use crate::instance_v3;
use crate::instance_v3::distinct;
use crate::instance_v3::exchange;
use crate::instance_v3::inter_area;
use crate::instance_v3::originate;
use crate::instance_v3::originate::ExternalV6;
use crate::instance_v3::reload::copy_summaries;
use crate::instance_v3::{InstanceV3, InstanceV3View};
use crate::io_v3;
use crate::io_v3::{RxPacketV3, TxPacketV3};
use crate::packet_v3::PacketV3Error;
use crate::spf_v3;
use crate::spf_v3::{SpfRouteV3, SpfRouteV3View};
use crate::wire;
use crate::wire::copy_bytes;

verus! {

broadcast use {wire::lemma_views_push, wire::lemma_views_update};

/// What happens to a running instance.
#[derive(Debug)]
pub enum Event {
    Received(RxPacketV3),
    /// A second passed: time for Hellos.
    HelloTick,
    /// A second passed: time to look for silent neighbors.
    ExpireTick,
    /// The forwarder reported its interfaces.
    Refreshed(Vec<SnapshotV3>),
    /// The forwarder reported what may be redistributed.
    Discovered(Vec<ExternalV6>),
    /// Time to see whether routes have to be computed.
    SpfTick,
    /// The configuration was read again.
    Reloaded(Ospf6DaemonConfig),
    /// The configuration could not be read again.
    ReloadFailed,
}

/// What happens to a running instance.
pub enum EventView {
    Received(io_v3::RxPacketV3View),
    HelloTick,
    ExpireTick,
    Refreshed(Seq<daemon_v3::SnapshotV3View>),
    Discovered(Seq<originate::ExternalV6View>),
    SpfTick,
    Reloaded(Ospf6DaemonConfig),
    ReloadFailed,
}

impl View for Event {
    type V = EventView;

    open spec fn view(&self) -> EventView {
        match *self {
            Event::Received(p) => EventView::Received(p@),
            Event::HelloTick => EventView::HelloTick,
            Event::ExpireTick => EventView::ExpireTick,
            Event::Refreshed(s) => EventView::Refreshed(wire::views(s@)),
            Event::Discovered(s) => EventView::Discovered(wire::views(s@)),
            Event::SpfTick => EventView::SpfTick,
            Event::Reloaded(c) => EventView::Reloaded(c),
            Event::ReloadFailed => EventView::ReloadFailed,
        }
    }
}

/// What an event causes.
#[derive(Debug)]
pub enum Effect {
    /// The packet goes out.
    Send(TxPacketV3),
    /// A packet cannot be read.
    Unreadable(PacketV3Error),
    /// What may be redistributed has to be found again.
    Discover,
    /// The routes replace those that were handed out before.
    Push(Vec<SpfRouteV3>),
    /// A change of the configuration takes a restart.
    Restart(RestartReason),
    /// The configuration was taken over; the flag says whether that changed anything.
    Applied(bool),
    /// The configuration stays as it was.
    Kept,
}

/// What an event causes.
pub enum EffectView {
    Send(io_v3::TxPacketV3View),
    Unreadable(PacketV3Error),
    Discover,
    Push(Seq<SpfRouteV3View>),
    Restart(RestartReasonView),
    Applied(bool),
    Kept,
}

impl View for Effect {
    type V = EffectView;

    open spec fn view(&self) -> EffectView {
        match *self {
            Effect::Send(p) => EffectView::Send(p@),
            Effect::Unreadable(e) => EffectView::Unreadable(e),
            Effect::Discover => EffectView::Discover,
            Effect::Push(rs) => EffectView::Push(wire::views(rs@)),
            Effect::Restart(r) => EffectView::Restart(r@),
            Effect::Applied(b) => EffectView::Applied(b),
            Effect::Kept => EffectView::Kept,
        }
    }
}

/// The packets as effects.
pub open spec fn sent(ps: Seq<io_v3::TxPacketV3View>) -> Seq<EffectView> {
    Seq::new(ps.len(), |i: int| EffectView::Send(ps[i]))
}

/// The reasons as effects.
pub open spec fn restarts(rs: Seq<RestartReasonView>) -> Seq<EffectView> {
    Seq::new(rs.len(), |i: int| EffectView::Restart(rs[i]))
}

impl InstanceV3View {
    /// What route computation sees of the instance.
    pub open spec fn mark(self) -> SpfMark {
        SpfMark {
            generation: self.lsdb.generation,
            neighbors: inter_area::full_neighbors_of(self.interfaces).len() as usize,
        }
    }

    /// Whether the time for route computation can lead to `after` and cause `fx`, `mark` being what
    /// was seen at the last computation and `mark2` what is seen then.
    pub open spec fn spf_steps(
        self,
        mark: Option<SpfMark>,
        after: InstanceV3View,
        mark2: Option<SpfMark>,
        fx: Seq<EffectView>,
    ) -> bool {
        if mark == Some(self.mark()) {
            &&& after == self
            &&& mark2 == mark
            &&& fx == Seq::<EffectView>::empty()
        } else {
            &&& mark2 == Some(SpfMark { neighbors: self.mark().neighbors, ..after.mark() })
            &&& exists|ts: Seq<Seq<SpfRouteV3View>>| #[trigger]
                self.are_area_tables(ts) && after == self.with_tables(ts)
            &&& exists|rs: Seq<SpfRouteV3View>| #[trigger]
                spf_v3::computed(
                    after.lsdb.entries,
                    self.router_id,
                    inter_area::full_neighbors_of(self.interfaces),
                    rs,
                ) && fx == seq![EffectView::Push(rs)]
        }
    }

    /// Whether an event can lead to `after` and cause `fx`, `mark` being what was seen at the last
    /// route computation and `mark2` the same afterwards.
    pub open spec fn steps(
        self,
        mark: Option<SpfMark>,
        e: EventView,
        now: u64,
        after: InstanceV3View,
        mark2: Option<SpfMark>,
        fx: Seq<EffectView>,
    ) -> bool {
        match e {
            EventView::Received(p) => {
                let r = self.received(p.sw_if_index, p.src_addr, p.data, now);
                &&& after == r.0
                &&& mark2 == mark
                &&& fx == (match r.1 {
                    Ok(_) => Seq::empty(),
                    Err(e) => seq![EffectView::Unreadable(e)],
                })
            },
            EventView::HelloTick => {
                let a = self.greeted(now);
                let b = a.described(now);
                &&& after == b.drained()
                &&& mark2 == mark
                &&& fx == sent(
                    instance_v3::all_hellos(self.interfaces, self.router_id, now)
                        + exchange::all_dds(a.interfaces, a.router_id, now) + exchange::all_queued(
                        b.interfaces,
                        b.router_id,
                    ),
                )
            },
            EventView::ExpireTick => {
                &&& after == self.pruned(now).self_refreshed()
                &&& mark2 == mark
                &&& fx == Seq::<EffectView>::empty()
            },
            EventView::Refreshed(ss) => {
                let r = self.snapped_all(ss);
                &&& after == (if r.1 {
                    r.0.self_refreshed()
                } else {
                    r.0
                })
                &&& mark2 == (if r.1 {
                    None
                } else {
                    mark
                })
                &&& fx == (if self.redistribute.len() > 0 {
                    seq![EffectView::Discover]
                } else {
                    Seq::empty()
                })
            },
            EventView::Discovered(es) => {
                &&& after == self.redistributed(es, self.summary_addresses)
                &&& mark2 == mark
                &&& fx == Seq::<EffectView>::empty()
            },
            EventView::SpfTick => self.spf_steps(mark, after, mark2, fx),
            EventView::Reloaded(c) => {
                let r = self.reconfigured(c);
                &&& after == r.0
                &&& mark2 == mark
                &&& fx == restarts(self.restart_reasons(c)).push(EffectView::Applied(r.1)) + (if r.1
                    && (self.redistribute.len() > 0 || r.0.redistribute.len() > 0) {
                    seq![EffectView::Discover]
                } else {
                    Seq::empty()
                })
            },
            EventView::ReloadFailed => {
                &&& after == self
                &&& mark2 == mark
                &&& fx == seq![EffectView::Kept]
            },
        }
    }
}

/// Appends packets.
fn push_packets(ps: Vec<TxPacketV3>, fx: &mut Vec<Effect>)
    ensures
        wire::views(final(fx)@) == wire::views(old(fx)@) + sent(wire::views(ps@)),
{
    let ghost start = wire::views(fx@);
    let ghost all = sent(wire::views(ps@));
    let mut i: usize = 0;
    assert(start + all.take(0) =~= start);
    while i < ps.len()
        invariant
            i <= ps@.len(),
            all == sent(wire::views(ps@)),
            wire::views(fx@) == start + all.take(i as int),
        decreases ps.len() - i,
    {
        assert(wire::views(ps@)[i as int] == ps@[i as int]@);
        let p = TxPacketV3 {
            sw_if_index: ps[i].sw_if_index,
            src_addr: ps[i].src_addr,
            dst_addr: ps[i].dst_addr,
            data: copy_bytes(&ps[i].data),
        };
        assert(p@ == ps@[i as int]@);
        fx.push(Effect::Send(p));
        assert(wire::views(fx@) =~= start + all.take(i + 1));
        i = i + 1;
    }
    assert(all.take(i as int) =~= all);
}

/// Appends the reasons for a restart.
fn push_reasons(reasons: Vec<RestartReason>, fx: &mut Vec<Effect>)
    ensures
        wire::views(final(fx)@) == wire::views(old(fx)@) + restarts(wire::views(reasons@)),
{
    let ghost start = wire::views(fx@);
    let ghost all = restarts(wire::views(reasons@));
    let mut i: usize = 0;
    assert(start + all.take(0) =~= start);
    while i < reasons.len()
        invariant
            i <= reasons@.len(),
            all == restarts(wire::views(reasons@)),
            wire::views(fx@) == start + all.take(i as int),
        decreases reasons.len() - i,
    {
        assert(wire::views(reasons@)[i as int] == reasons@[i as int]@);
        fx.push(Effect::Restart(reasons[i].duplicate()));
        assert(wire::views(fx@) =~= start + all.take(i + 1));
        i = i + 1;
    }
    assert(all.take(i as int) =~= all);
}

impl InstanceV3 {
    /// Computes routes if anything moved since the last computation.
    fn spf_step(&mut self, mark: &mut Option<SpfMark>, fx: &mut Vec<Effect>)
        requires
            wire::views(old(fx)@) == Seq::<EffectView>::empty(),
        ensures
            old(self)@.spf_steps(
                *old(mark),
                final(self)@,
                *final(mark),
                wire::views(final(fx)@),
            ),
    {
        let ghost me = self@;
        let neighbors: usize = self.spf_neighbors().len();
        if !spf_needed(*mark, self.lsdb.generation(), neighbors) {
            return ;
        }
        let rs = self.run_spf();
        let ghost got = wire::views(rs@);
        *mark = Some(SpfMark { generation: self.lsdb.generation(), neighbors });
        fx.push(Effect::Push(rs));
        assert(wire::views(fx@) =~= seq![EffectView::Push(got)]);
    }

    /// Takes an event in and says what it causes. `mark` is what was seen at the last route
    /// computation; nothing if routes have to be computed in any case.
    pub fn step(&mut self, mark: &mut Option<SpfMark>, event: Event, now: u64) -> (fx: Vec<Effect>)
        requires
            event matches Event::Discovered(es) ==> es@.len() < 0xffffffff
                && old(self).summary_addresses@.len() <= 0xffffefff,
        ensures
            old(self)@.steps(
                *old(mark),
                event@,
                now,
                final(self)@,
                *final(mark),
                wire::views(fx@),
            ),
    {
        let mut fx: Vec<Effect> = Vec::new();
        assert(wire::views(fx@) =~= Seq::empty());
        match event {
            Event::Received(rx) => {
                if let Err(e) = self.handle_rx(rx, now) {
                    fx.push(Effect::Unreadable(e));
                    assert(wire::views(fx@) =~= seq![EffectView::Unreadable(e)]);
                }
            },
            Event::HelloTick => {
                let ps = self.on_hello_tick(now);
                let ghost all = wire::views(ps@);
                push_packets(ps, &mut fx);
                assert(wire::views(fx@) =~= sent(all));
            },
            Event::ExpireTick => {
                self.on_expire_tick(now);
            },
            Event::Refreshed(ss) => {
                let find = self.redistribute.len() > 0;
                if self.on_interface_refresh(&ss) {
                    *mark = None;
                }
                if find {
                    fx.push(Effect::Discover);
                    assert(wire::views(fx@) =~= seq![EffectView::Discover]);
                }
            },
            Event::Discovered(es) => {
                let summaries = copy_summaries(&self.summary_addresses);
                self.originate_external_lsas(es, &summaries);
            },
            Event::SpfTick => {
                self.spf_step(mark, &mut fx);
            },
            Event::Reloaded(c) => {
                let reasons = self.restart_reasons(&c);
                push_reasons(reasons, &mut fx);
                let was = self.redistribute.len() > 0;
                let changed = self.reload_config(&c);
                let find = changed && (was || self.redistribute.len() > 0);
                fx.push(Effect::Applied(changed));
                if find {
                    fx.push(Effect::Discover);
                }
                assert(wire::views(fx@) =~= restarts(old(self)@.restart_reasons(c)).push(
                    EffectView::Applied(changed),
                ) + (if find {
                    seq![EffectView::Discover]
                } else {
                    Seq::empty()
                }));
            },
            Event::ReloadFailed => {
                fx.push(Effect::Kept);
                assert(wire::views(fx@) =~= seq![EffectView::Kept]);
            },
        }
        fx
    }
}

proof fn lemma_snapped_wf(me: InstanceV3View, ss: Seq<daemon_v3::SnapshotV3View>)
    requires
        me.wf(),
    ensures
        me.snapped_all(ss).0.wf(),
    decreases ss.len(),
{
    if ss.len() > 0 {
        lemma_snapped_wf(me, ss.drop_last());
        let front = me.snapped_all(ss.drop_last()).0;
        let s = ss.last();
        instance_v3::lemma_iface_pos(front.interfaces, s.sw_if_index, 0);
        match instance_v3::iface_pos(front.interfaces, s.sw_if_index, 0) {
            Some(i) => {
                distinct::lemma_refresh_wf(front, i, s.link_local, s.prefixes, s.up);
            },
            None => {},
        }
    }
}

/// Whatever happens, no interface, neighbor or LSA is ever listed twice.
pub proof fn lemma_step_wf(
    me: InstanceV3View,
    mark: Option<SpfMark>,
    e: EventView,
    now: u64,
    after: InstanceV3View,
    mark2: Option<SpfMark>,
    fx: Seq<EffectView>,
)
    requires
        me.wf(),
        me.steps(mark, e, now, after, mark2, fx),
    ensures
        after.wf(),
{
    match e {
        EventView::Received(p) => {
            distinct::lemma_packet_wf(me, p.sw_if_index, p.src_addr, p.data, now);
        },
        EventView::HelloTick => {
            let a = me.greeted(now);
            let b = a.described(now);
            distinct::lemma_timers_wf(me, now);
            distinct::lemma_timers_wf(a, now);
            distinct::lemma_timers_wf(b, now);
        },
        EventView::ExpireTick => {
            distinct::lemma_timers_wf(me, now);
            distinct::lemma_origination_wf(me.pruned(now));
        },
        EventView::Refreshed(ss) => {
            lemma_snapped_wf(me, ss);
            distinct::lemma_origination_wf(me.snapped_all(ss).0);
        },
        EventView::Discovered(es) => {
            distinct::lemma_redistribution_wf(me, es, me.summary_addresses, Seq::empty());
        },
        EventView::SpfTick => {
            if mark != Some(me.mark()) {
                let ts = choose|ts: Seq<Seq<SpfRouteV3View>>| #[trigger]
                    me.are_area_tables(ts) && after == me.with_tables(ts);
                distinct::lemma_spf_wf(me, ts);
            }
        },
        EventView::Reloaded(c) => {
            distinct::lemma_reload_wf(me, c);
        },
        EventView::ReloadFailed => {},
    }
}

/// Routes are not computed again while neither the database nor the number of full neighbors moves.
pub proof fn lemma_no_idle_computation(
    me: InstanceV3View,
    now: u64,
    after: InstanceV3View,
    mark2: Option<SpfMark>,
    fx: Seq<EffectView>,
)
    requires
        me.steps(Some(me.mark()), EventView::SpfTick, now, after, mark2, fx),
    ensures
        after == me,
        mark2 == Some(me.mark()),
        fx.len() == 0,
{
}

/// A packet that cannot be read changes nothing and is not answered.
pub proof fn lemma_unreadable_ignored(
    me: InstanceV3View,
    mark: Option<SpfMark>,
    p: io_v3::RxPacketV3View,
    now: u64,
    after: InstanceV3View,
    mark2: Option<SpfMark>,
    fx: Seq<EffectView>,
)
    requires
        me.steps(mark, EventView::Received(p), now, after, mark2, fx),
        me.received(p.sw_if_index, p.src_addr, p.data, now).1 is Err,
    ensures
        after == me,
        mark2 == mark,
        fx.len() == 1 && fx[0] is Unreadable,
{
}

} // verus!
