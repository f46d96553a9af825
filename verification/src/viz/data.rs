//! The data of a visualisation.
use vstd::prelude::*;

verus! {

/// A link as it is shown.
#[derive(Debug, Clone, Copy)]
pub struct VizLink {
    pub id: u32,
    pub from: u32,
    pub to: u32,
    pub bandwidth_bps: u64,
}

/// What a link has done since the last sample.
#[derive(Debug, Clone, Copy)]
pub struct LinkSnapshot {
    /// The bytes that the link has carried.
    pub delta_bytes: u64,
    /// The bytes that wait for the link.
    pub queue_depth_bytes: u32,
}

/// A sample of all links.
#[derive(Debug, Clone)]
pub struct VizFrame {
    pub time_ns: u64,
    pub links: Vec<LinkSnapshot>,
}

/// The contents of a sample.
#[verifier::ext_equal]
pub struct FrameView {
    pub time_ns: u64,
    pub links: Seq<LinkSnapshot>,
}

impl View for VizFrame {
    type V = FrameView;

    open spec fn view(&self) -> FrameView {
        FrameView { time_ns: self.time_ns, links: self.links@ }
    }
}

} // verus!
