//! The table of view histories, indexed by view, with the replay state.
use vstd::prelude::*;

use crate::codec::fits_snappy;
use crate::color::{transparent_rgba, rgba_to_bgra, Bgra8};
use crate::history::{capturable, initial_spec, HistoryView, Snapshot, ViewExtent, ViewResources};
use crate::replay::{ReplayVerifier, ReplayView};
use std::collections::BTreeMap;

verus! {

broadcast use vstd::std_specs::btree::group_btree_axioms;

/// Identifies an open view. Ids are allocated in increasing order and not
/// reused while the view is open.
#[derive(Clone, Copy, Debug, PartialEq, Eq, PartialOrd, Ord, Hash, Structural)]
pub struct ViewId(pub u16);

impl Default for ViewId {
    fn default() -> (r: ViewId)
        ensures
            r == ViewId(0),
    {
        ViewId(0)
    }
}

/// Relies on `BTreeMap::get_mut`: a mutable reference to the value under
/// the key, if there is one; writes through it land in the map.
#[verifier::external_body]
fn history_mut(m: &mut BTreeMap<u16, ViewResources>, k: u16) -> (r: Option<&mut ViewResources>)
    ensures
        old(m)@.contains_key(k) ==> r.is_some() && *r.unwrap() == old(m)@[k] && final(m)@
            == old(m)@.insert(k, *final(r.unwrap())),
        !old(m)@.contains_key(k) ==> r.is_none() && final(m)@ == old(m)@,
{
    m.get_mut(&k)
}

/// What the table holds: the history of each open view, and the replay state.
pub struct ResourcesView {
    pub views: Map<u16, HistoryView>,
    pub replay: ReplayView,
}

/// The histories of all open views, and the state of replay verification.
pub struct Resources {
    data: BTreeMap<u16, ViewResources>,
    /// Expected frame hashes and the hash checked last.
    pub replay: ReplayVerifier,
}

impl View for Resources {
    type V = ResourcesView;

    closed spec fn view(&self) -> ResourcesView {
        ResourcesView {
            views: self.data@.map_values(|v: ViewResources| v@),
            replay: self.replay@,
        }
    }
}

/// A buffer of `len` transparent pixels.
pub open spec fn blank_pixels(len: int) -> Seq<Bgra8> {
    Seq::new(len as nat, |i: int| rgba_to_bgra(transparent_rgba()))
}

impl Resources {
    /// Every history in the table is well formed.
    pub open spec fn wf(&self) -> bool {
        forall|k: u16| #[trigger] self@.views.contains_key(k) ==> self@.views[k].wf()
    }

    /// An empty table with no replay state.
    pub fn new() -> (r: Resources)
        ensures
            r.wf(),
            r@.views == Map::<u16, HistoryView>::empty(),
            r@.replay.expected == Seq::<crate::replay::Hash>::empty(),
            r@.replay.last_verified is None,
    {
        let r = Resources { data: BTreeMap::new(), replay: ReplayVerifier::new() };
        assert(r@.views =~= Map::<u16, HistoryView>::empty());
        r
    }

    /// Whether the table holds a history for the view.
    pub fn has_view(&self, id: ViewId) -> (r: bool)
        ensures
            r == self@.views.contains_key(id.0),
    {
        self.data.contains_key(&id.0)
    }

    /// The current snapshot of a view and its live pixels.
    pub fn get_snapshot(&self, id: ViewId) -> (r: (&Snapshot, &[Bgra8]))
        requires
            self.wf(),
            self@.views.contains_key(id.0),
        ensures
            r.0@ == self@.views[id.0].current(),
            r.1@ == self@.views[id.0].pixels,
            r.1@ == r.0@.pixels,
    {
        let v = self.data.get(&id.0).unwrap();
        assert(self@.views[id.0] == v@);
        v.current_snapshot()
    }

    /// The history of a view, to push, undo or redo; `None` for an unknown view.
    pub fn get_view_mut(&mut self, id: ViewId) -> (r: Option<&mut ViewResources>)
        ensures
            r is Some <==> old(self)@.views.contains_key(id.0),
            r is Some ==> (*r.unwrap())@ == old(self)@.views[id.0] && final(self)@.views
                == old(self)@.views.insert(id.0, (*final(r.unwrap()))@),
            r is None ==> final(self)@ == old(self)@,
            final(self)@.replay == old(self)@.replay,
    {
        history_mut(&mut self.data, id.0)
    }

    /// Opens a history for a view: one snapshot of `pixels`, a single frame
    /// of `fw` by `fh`. A history already held under the id is replaced.
    pub fn add_view(&mut self, id: ViewId, fw: u32, fh: u32, pixels: &[Bgra8])
        requires
            old(self).wf(),
            capturable(pixels@, ViewExtent { fw, fh, nframes: 1 }),
        ensures
            final(self).wf(),
            final(self)@.views == old(self)@.views.insert(
                id.0,
                initial_spec(pixels@, ViewExtent { fw, fh, nframes: 1 }),
            ),
            final(self)@.replay == old(self)@.replay,
    {
        let v = ViewResources::new(pixels, fw, fh);
        self.data.insert(id.0, v);
        assert(self@.views =~= old(self)@.views.insert(id.0, v@));
    }

    /// Opens a history for a view of `w` by `h` transparent pixels.
    pub fn add_blank_view(&mut self, id: ViewId, w: u32, h: u32)
        requires
            old(self).wf(),
            fits_snappy(4 * (w * h)),
        ensures
            final(self).wf(),
            final(self)@.views == old(self)@.views.insert(
                id.0,
                initial_spec(blank_pixels(w * h), ViewExtent { fw: w, fh: h, nframes: 1 }),
            ),
            final(self)@.replay == old(self)@.replay,
    {
        let len = w as usize * h as usize;
        let mut pixels: Vec<Bgra8> = Vec::new();
        let mut i: usize = 0;
        while i < len
            invariant
                len == w * h,
                i <= len,
                pixels@ =~= blank_pixels(i as int),
            decreases len - i,
        {
            pixels.push(Bgra8::transparent());
            i = i + 1;
        }
        proof {
            assert(w * h == w * h * 1);
            assert(w * 1 <= u32::MAX);
        }
        self.add_view(id, w, h, pixels.as_slice());
    }

    /// Closes the history of a view, dropping all its snapshots.
    pub fn remove_view(&mut self, id: ViewId)
        requires
            old(self).wf(),
        ensures
            final(self).wf(),
            final(self)@.views == old(self)@.views.remove(id.0),
            final(self)@.replay == old(self)@.replay,
    {
        self.data.remove(&id.0);
        assert(self@.views =~= old(self)@.views.remove(id.0));
    }
}

} // verus!
