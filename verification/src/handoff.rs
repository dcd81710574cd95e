//! Handing the bars of the latest frame to whoever draws them.

use vstd::prelude::*;
use crate::color::ColorRgbtuple;
use crate::vectors::copy_of;

verus! {

/// The bars of one frame with their colours.  The two always travel
/// together.
#[derive(Debug)]
pub struct Snapshot {
    /// The bar lengths.
    pub bars: Vec<u64>,
    /// One colour per display column.
    pub colors: Vec<ColorRgbtuple>,
}

impl Snapshot {
    /// The snapshot before any frame: no bars, no colours.
    pub fn empty() -> (snapshot: Self)
        ensures
            snapshot.bars@.len() == 0,
            snapshot.colors@.len() == 0,
    {
        Snapshot { bars: Vec::new(), colors: Vec::new() }
    }

    /// A copy of both vectors.
    pub fn duplicate(&self) -> (copy: Self)
        ensures
            copy.bars@ == self.bars@,
            copy.colors@ == self.colors@,
    {
        Snapshot { bars: copy_of(&self.bars), colors: copy_of(&self.colors) }
    }
}

/// A slot that holds the latest snapshot.  A new snapshot replaces the old one as a whole, so a reader sees the bars
/// and the colours of one and the same frame; frames that nobody read are
/// lost.  Shared between threads it is put behind one lock, which is held
/// only for the exchange.
pub struct RenderHandoff {
    latest: Snapshot,
}

impl RenderHandoff {
    /// The bars that a reader sees.
    pub closed spec fn bars(&self) -> Seq<u64> {
        self.latest.bars@
    }

    /// The colours that a reader sees.
    pub closed spec fn colors(&self) -> Seq<ColorRgbtuple> {
        self.latest.colors@
    }

    /// A slot that holds the empty snapshot.
    pub fn new() -> (handoff: Self)
        ensures
            handoff.bars().len() == 0,
            handoff.colors().len() == 0,
    {
        RenderHandoff { latest: Snapshot::empty() }
    }

    /// Replaces the snapshot.  The last write wins.
    pub fn publish(&mut self, snapshot: Snapshot)
        ensures
            final(self).bars() == snapshot.bars@,
            final(self).colors() == snapshot.colors@,
    {
        self.latest = snapshot;
    }

    /// A copy of the latest snapshot; the slot keeps its own.
    pub fn latest(&self) -> (snapshot: Snapshot)
        ensures
            snapshot.bars@ == self.bars(),
            snapshot.colors@ == self.colors(),
    {
        self.latest.duplicate()
    }
}

} // verus!
