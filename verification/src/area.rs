//! Areas.
//!
//! Each area has a link state database of its own. The backbone, area 0, joins the others.
use vstd::prelude::*;

use crate::lsdb;
use crate::lsdb::Lsdb;

verus! {

/// How an area treats external routes.
#[derive(Clone, Copy, Debug, PartialEq, Eq, Structural)]
pub enum AreaType {
    /// Takes AS-external LSAs.
    Normal,
    /// Takes no AS-external LSAs; a default route stands in for them.
    Stub,
    /// Takes no AS-external LSAs but has area-scope externals of its own.
    Nssa,
}

/// An area that the router is attached to.
#[derive(Debug)]
pub struct Area {
    pub area_id: u32,
    pub area_type: AreaType,
    /// Cost of the default route that a border router announces into a stub area.
    pub default_cost: u32,
    pub lsdb: Lsdb,
}

/// What is known of an area.
pub struct AreaView {
    pub area_id: u32,
    pub area_type: AreaType,
    pub default_cost: u32,
    pub lsdb: lsdb::LsdbView,
}

impl View for Area {
    type V = AreaView;

    open spec fn view(&self) -> AreaView {
        AreaView {
            area_id: self.area_id,
            area_type: self.area_type,
            default_cost: self.default_cost,
            lsdb: self.lsdb@,
        }
    }
}

impl AreaView {
    /// An area without LSAs.
    pub open spec fn fresh(area_id: u32, area_type: AreaType, router_id: u32) -> AreaView {
        AreaView { area_id, area_type, default_cost: 1, lsdb: lsdb::LsdbView::empty(router_id) }
    }
}

impl Area {
    /// An area without LSAs.
    pub fn new(area_id: u32, area_type: AreaType, router_id: u32) -> (a: Area)
        ensures
            a@ == AreaView::fresh(area_id, area_type, router_id),
    {
        Area { area_id, area_type, default_cost: 1, lsdb: Lsdb::new(router_id) }
    }

    /// Whether this is the backbone.
    pub fn is_backbone(&self) -> (b: bool)
        ensures
            b == (self@.area_id == 0),
    {
        self.area_id == 0
    }

    /// Whether AS-external LSAs may enter the area.
    pub fn accepts_as_external(&self) -> (b: bool)
        ensures
            b == (self@.area_type is Normal),
    {
        self.area_type == AreaType::Normal
    }
}

} // verus!
