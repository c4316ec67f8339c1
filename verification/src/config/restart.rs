//! Changes of the configuration that a running instance does not take over.
use vstd::prelude::*;

verus! {

/// A change that takes a restart. Interfaces are named.
#[derive(Debug)]
pub enum RestartReason {
    RouterId,
    /// The interface is configured but does not run.
    NewInterface(String),
    /// The interface has another area.
    Area(String),
    /// The interface has another network type.
    NetworkType(String),
    /// The interface runs but is no longer configured.
    RemovedInterface(String),
}

/// What takes a restart.
pub enum RestartReasonView {
    RouterId,
    NewInterface(Seq<char>),
    Area(Seq<char>),
    NetworkType(Seq<char>),
    RemovedInterface(Seq<char>),
}

impl View for RestartReason {
    type V = RestartReasonView;

    open spec fn view(&self) -> RestartReasonView {
        match *self {
            RestartReason::RouterId => RestartReasonView::RouterId,
            RestartReason::NewInterface(n) => RestartReasonView::NewInterface(n@),
            RestartReason::Area(n) => RestartReasonView::Area(n@),
            RestartReason::NetworkType(n) => RestartReasonView::NetworkType(n@),
            RestartReason::RemovedInterface(n) => RestartReasonView::RemovedInterface(n@),
        }
    }
}

impl RestartReason {
    /// A copy of the reason.
    pub fn duplicate(&self) -> (r: RestartReason)
        ensures
            r@ == self@,
    {
        match self {
            RestartReason::RouterId => RestartReason::RouterId,
            RestartReason::NewInterface(n) => RestartReason::NewInterface(n.as_str().to_owned()),
            RestartReason::Area(n) => RestartReason::Area(n.as_str().to_owned()),
            RestartReason::NetworkType(n) => RestartReason::NetworkType(n.as_str().to_owned()),
            RestartReason::RemovedInterface(n) => RestartReason::RemovedInterface(
                n.as_str().to_owned(),
            ),
        }
    }
}

/// What of an interface takes a restart, if its area or its network type changes.
pub open spec fn moved(name: Seq<char>, area: bool, network_type: bool) -> Seq<RestartReasonView> {
    (if area {
        seq![RestartReasonView::Area(name)]
    } else {
        Seq::empty()
    }) + (if network_type {
        seq![RestartReasonView::NetworkType(name)]
    } else {
        Seq::empty()
    })
}

} // verus!
