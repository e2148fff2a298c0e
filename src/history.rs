//! Snapshots of a view and the undo/redo history that holds them.
use vstd::prelude::*;

use crate::codec::{fits_snappy, Compressed};
use crate::color::{
    bgra_from_bytes, from_bgra_bytes, lemma_bgra_bytes_round_trip, to_bgra_bytes, Bgra8,
};
use nonempty::NonEmpty;
use vstd::slice::slice_to_vec;

verus! {

/// The geometry of an animation strip: `nframes` frames of `fw` by `fh`
/// pixels, laid out left to right.
#[derive(Clone, Copy, Debug, PartialEq, Eq, Structural)]
pub struct ViewExtent {
    pub fw: u32,
    pub fh: u32,
    pub nframes: usize,
}

impl ViewExtent {
    pub fn new(fw: u32, fh: u32, nframes: usize) -> (e: ViewExtent)
        ensures
            e == (ViewExtent { fw, fh, nframes }),
    {
        ViewExtent { fw, fh, nframes }
    }
}

/// The number of pixels in a strip of this geometry.
pub open spec fn extent_len(e: ViewExtent) -> int {
    e.fw * e.fh * e.nframes
}

/// Whether a buffer of `pixels` can be captured with geometry `extent`: it
/// has the size the geometry gives, the strip width fits in `u32`, and its
/// bytes are few enough to compress.
pub open spec fn capturable(pixels: Seq<Bgra8>, extent: ViewExtent) -> bool {
    &&& pixels.len() == extent_len(extent)
    &&& extent.fw * extent.nframes <= u32::MAX
    &&& fits_snappy(4 * pixels.len() as int)
}

/// Identifies a point in the history of one view.
#[derive(Clone, Copy, Debug, PartialEq, Eq, Structural)]
pub struct SnapshotId(pub usize);

impl Default for SnapshotId {
    fn default() -> (r: SnapshotId)
        ensures
            r == SnapshotId(0),
    {
        SnapshotId(0)
    }
}

/// What a snapshot holds: its id, its geometry and its pixels.
pub struct SnapshotView {
    pub id: nat,
    pub extent: ViewExtent,
    pub pixels: Seq<Bgra8>,
}

/// One compressed, immutable capture of the pixels of a view.
pub struct Snapshot {
    id: SnapshotId,
    extent: ViewExtent,
    size: usize,
    pixels: Compressed,
}

impl View for Snapshot {
    type V = SnapshotView;

    closed spec fn view(&self) -> SnapshotView {
        SnapshotView {
            id: self.id.0 as nat,
            extent: self.extent,
            pixels: bgra_from_bytes(self.pixels.raw()),
        }
    }
}

impl Snapshot {
    #[verifier::type_invariant]
    spec fn inv(&self) -> bool {
        &&& self.size == self.pixels.raw().len()
        &&& self.size == 4 * extent_len(self.extent)
        &&& self.extent.fw * self.extent.nframes <= u32::MAX
    }

    /// Captures a copy of `pixels`; only the compressed form is kept.
    pub fn new(id: SnapshotId, pixels: &[Bgra8], extent: ViewExtent) -> (r: Snapshot)
        requires
            capturable(pixels@, extent),
        ensures
            r@ == (SnapshotView { id: id.0 as nat, extent, pixels: pixels@ }),
    {
        let bytes = to_bgra_bytes(pixels);
        let size = bytes.len();
        let compressed = Compressed::from(bytes.as_slice());
        proof {
            lemma_bgra_bytes_round_trip(pixels@);
        }
        Snapshot { id, extent, size, pixels: compressed }
    }

    pub fn id(&self) -> (r: SnapshotId)
        ensures
            r.0 == self@.id,
    {
        self.id
    }

    pub fn extent(&self) -> (r: ViewExtent)
        ensures
            r == self@.extent,
    {
        self.extent
    }

    /// The number of bytes the pixels take once decompressed.
    pub fn size(&self) -> (r: usize)
        ensures
            r == 4 * self@.pixels.len(),
    {
        proof {
            use_type_invariant(self);
            lemma_pixel_count(self.pixels.raw(), self.extent);
        }
        self.size
    }

    /// The width of the whole strip: the frame width times the frame count.
    pub fn width(&self) -> (r: u32)
        ensures
            r == self@.extent.fw * self@.extent.nframes,
    {
        proof {
            use_type_invariant(self);
        }
        if self.extent.fw == 0 {
            0
        } else {
            proof {
                assert(self.extent.nframes <= self.extent.fw * self.extent.nframes) by (nonlinear_arith)
                    requires
                        self.extent.fw >= 1,
                ;
            }
            self.extent.fw * (self.extent.nframes as u32)
        }
    }

    pub fn height(&self) -> (r: u32)
        ensures
            r == self@.extent.fh,
    {
        self.extent.fh
    }

    /// The pixels of the snapshot, decompressed anew on each call.
    pub fn pixels(&self) -> (r: Vec<Bgra8>)
        ensures
            r@ == self@.pixels,
    {
        let bytes = self.pixels.decompress();
        from_bgra_bytes(bytes.as_slice())
    }
}

proof fn lemma_pixel_count(raw: Seq<u8>, extent: ViewExtent)
    requires
        raw.len() == 4 * extent_len(extent),
    ensures
        bgra_from_bytes(raw).len() == extent_len(extent),
        raw.len() == 4 * bgra_from_bytes(raw).len(),
{
    let n = extent_len(extent);
    assert(n >= 0) by (nonlinear_arith)
        requires
            n == extent.fw * extent.fh * extent.nframes,
    ;
    crate::color::lemma_div_mod_4(n, 0);
}

#[verifier::external_type_specification]
#[verifier::external_body]
#[verifier::reject_recursive_types(T)]
pub struct ExNonEmpty<T>(NonEmpty<T>);

/// The snapshots a non-empty list holds, first to last.
pub uninterp spec fn snapshots_of(list: NonEmpty<Snapshot>) -> Seq<Snapshot>;

/// Relies on `NonEmpty::new`: a list of the one element.
#[verifier::external_body]
fn list_new(s: Snapshot) -> (r: NonEmpty<Snapshot>)
    ensures
        snapshots_of(r) == seq![s],
{
    NonEmpty::new(s)
}

/// Relies on `NonEmpty::len`: the number of elements, the first included.
#[verifier::external_body]
fn list_len(list: &NonEmpty<Snapshot>) -> (r: usize)
    ensures
        r == snapshots_of(*list).len(),
{
    list.len()
}

/// Relies on `NonEmpty::get`: the element at `index`, if the list is that long.
#[verifier::external_body]
fn list_get(list: &NonEmpty<Snapshot>, index: usize) -> (r: Option<&Snapshot>)
    ensures
        index < snapshots_of(*list).len() <==> r is Some,
        r is Some ==> *r->0 == snapshots_of(*list)[index as int],
{
    list.get(index)
}

/// Relies on `NonEmpty::push`: appends one element at the end.
#[verifier::external_body]
fn list_push(list: &mut NonEmpty<Snapshot>, s: Snapshot)
    ensures
        snapshots_of(*final(list)) == snapshots_of(*old(list)).push(s),
{
    list.push(s)
}

/// Relies on `NonEmpty::truncate`: keeps the first `len` elements; it
/// panics when `len` is zero.
#[verifier::external_body]
fn list_truncate(list: &mut NonEmpty<Snapshot>, len: usize)
    requires
        1 <= len <= snapshots_of(*old(list)).len(),
    ensures
        snapshots_of(*final(list)) == snapshots_of(*old(list)).take(len as int),
{
    list.truncate(len)
}

/// The state of the history of one view.
pub struct HistoryView {
    /// Every snapshot, oldest first.
    pub snapshots: Seq<SnapshotView>,
    /// The position of the current snapshot.
    pub cursor: nat,
    /// The live pixels of the view.
    pub pixels: Seq<Bgra8>,
}

impl HistoryView {
    /// The history is never empty, the cursor points into it, snapshot ids are
    /// their positions, each snapshot has the size of its geometry, and the
    /// live pixels are those of the current snapshot.
    pub open spec fn wf(self) -> bool {
        &&& self.snapshots.len() >= 1
        &&& self.cursor < self.snapshots.len()
        &&& forall|i: int| 0 <= i < self.snapshots.len() ==> #[trigger] self.snapshots[i].id == i
        &&& forall|i: int|
            0 <= i < self.snapshots.len() ==> (#[trigger] self.snapshots[i]).pixels.len()
                == extent_len(self.snapshots[i].extent)
        &&& self.pixels == self.snapshots[self.cursor as int].pixels
    }

    pub open spec fn current(self) -> SnapshotView {
        self.snapshots[self.cursor as int]
    }
}

/// A fresh history: one snapshot, with id zero.
pub open spec fn initial_spec(pixels: Seq<Bgra8>, extent: ViewExtent) -> HistoryView {
    HistoryView {
        snapshots: seq![SnapshotView { id: 0, extent, pixels }],
        cursor: 0,
        pixels,
    }
}

/// Pushing drops every snapshot after the cursor, then appends the new one
/// and moves the cursor to it.
pub open spec fn push_spec(h: HistoryView, pixels: Seq<Bgra8>, extent: ViewExtent) -> HistoryView {
    HistoryView {
        snapshots: h.snapshots.take(h.cursor + 1 as int).push(
            SnapshotView { id: h.cursor + 1, extent, pixels },
        ),
        cursor: h.cursor + 1,
        pixels,
    }
}

/// Undo moves the cursor one step back, unless it is at the first snapshot.
pub open spec fn undo_spec(h: HistoryView) -> HistoryView {
    if h.cursor == 0 {
        h
    } else {
        HistoryView {
            snapshots: h.snapshots,
            cursor: (h.cursor - 1) as nat,
            pixels: h.snapshots[h.cursor - 1].pixels,
        }
    }
}

/// Redo moves the cursor one step forward, unless it is at the last snapshot.
pub open spec fn redo_spec(h: HistoryView) -> HistoryView {
    if h.cursor + 1 >= h.snapshots.len() {
        h
    } else {
        HistoryView {
            snapshots: h.snapshots,
            cursor: h.cursor + 1,
            pixels: h.snapshots[h.cursor + 1 as int].pixels,
        }
    }
}

/// The snapshot history of one view, with a cursor for undo and redo and a
/// decompressed copy of the current pixels.
pub struct ViewResources {
    /// Non empty list of view snapshots.
    snapshots: NonEmpty<Snapshot>,
    /// Current view snapshot.
    snapshot: usize,
    /// Current view pixels, kept decompressed.
    pixels: Vec<Bgra8>,
}

impl View for ViewResources {
    type V = HistoryView;

    closed spec fn view(&self) -> HistoryView {
        HistoryView {
            snapshots: snapshots_of(self.snapshots).map_values(|s: Snapshot| s@),
            cursor: self.snapshot as nat,
            pixels: self.pixels@,
        }
    }
}

impl ViewResources {
    pub open spec fn wf(&self) -> bool {
        self@.wf()
    }

    /// A history of one snapshot of `pixels`, a single frame of `fw` by `fh`.
    pub fn new(pixels: &[Bgra8], fw: u32, fh: u32) -> (r: ViewResources)
        requires
            capturable(pixels@, ViewExtent { fw, fh, nframes: 1 }),
        ensures
            r.wf(),
            r@ == initial_spec(pixels@, ViewExtent { fw, fh, nframes: 1 }),
    {
        let extent = ViewExtent::new(fw, fh, 1);
        let s = Snapshot::new(SnapshotId(0), pixels, extent);
        let r = ViewResources { snapshots: list_new(s), snapshot: 0, pixels: slice_to_vec(pixels) };
        assert(r@.snapshots =~= initial_spec(pixels@, extent).snapshots);
        r
    }

    /// The current snapshot and the live pixels, which show the same content.
    pub fn current_snapshot(&self) -> (r: (&Snapshot, &[Bgra8]))
        requires
            self.wf(),
        ensures
            r.0@ == self@.current(),
            r.1@ == self@.pixels,
            r.1@ == r.0@.pixels,
    {
        let s = list_get(&self.snapshots, self.snapshot);
        (s.unwrap(), self.pixels.as_slice())
    }

    /// Commits `pixels` as a new snapshot. Snapshots after the cursor are
    /// dropped first: an edit after an undo erases what was undone.
    pub fn push_snapshot(&mut self, pixels: &[Bgra8], extent: ViewExtent)
        requires
            old(self).wf(),
            capturable(pixels@, extent),
            old(self)@.snapshots.len() < usize::MAX,
        ensures
            final(self).wf(),
            final(self)@ == push_spec(old(self)@, pixels@, extent),
    {
        let ghost h = self@;
        let len = list_len(&self.snapshots);
        if self.snapshot != len - 1 {
            list_truncate(&mut self.snapshots, self.snapshot + 1);
            self.snapshot = list_len(&self.snapshots) - 1;
        }
        self.snapshot = self.snapshot + 1;
        self.pixels = slice_to_vec(pixels);
        let s = Snapshot::new(SnapshotId(self.snapshot), pixels, extent);
        list_push(&mut self.snapshots, s);
        proof {
            assert(self@.snapshots =~= push_spec(h, pixels@, extent).snapshots);
        }
    }

    /// Steps back to the previous snapshot and restores its pixels, unless
    /// the cursor is at the first snapshot.
    pub fn prev_snapshot(&mut self) -> (r: Option<&Snapshot>)
        requires
            old(self).wf(),
        ensures
            final(self).wf(),
            final(self)@ == undo_spec(old(self)@),
            r is Some <==> old(self)@.cursor > 0,
            r is Some ==> r->0@ == final(self)@.current(),
    {
        if self.snapshot == 0 {
            return None;
        }
        if let Some(snapshot) = list_get(&self.snapshots, self.snapshot - 1) {
            self.snapshot = self.snapshot - 1;
            self.pixels = snapshot.pixels();
            Some(snapshot)
        } else {
            None
        }
    }

    /// Steps forward to the next snapshot and restores its pixels, unless
    /// the cursor is at the last snapshot.
    pub fn next_snapshot(&mut self) -> (r: Option<&Snapshot>)
        requires
            old(self).wf(),
        ensures
            final(self).wf(),
            final(self)@ == redo_spec(old(self)@),
            r is Some <==> old(self)@.cursor + 1 < old(self)@.snapshots.len(),
            r is Some ==> r->0@ == final(self)@.current(),
    {
        let len = list_len(&self.snapshots);
        if self.snapshot + 1 >= len {
            return None;
        }
        if let Some(snapshot) = list_get(&self.snapshots, self.snapshot + 1) {
            self.snapshot = self.snapshot + 1;
            self.pixels = snapshot.pixels();
            Some(snapshot)
        } else {
            None
        }
    }
}

/// The history invariant holds of a fresh history, and push, undo and redo
/// keep it: after any sequence of them the history is non-empty and the
/// cursor points into it.
pub proof fn lemma_history_invariant(h: HistoryView, pixels: Seq<Bgra8>, extent: ViewExtent)
    requires
        h.wf(),
        pixels.len() == extent_len(extent),
    ensures
        initial_spec(pixels, extent).wf(),
        push_spec(h, pixels, extent).wf(),
        undo_spec(h).wf(),
        redo_spec(h).wf(),
{
    let p = push_spec(h, pixels, extent);
    assert forall|i: int| 0 <= i < p.snapshots.len() implies #[trigger] p.snapshots[i].id == i by {
        if i < h.cursor + 1 as int {
            assert(p.snapshots[i] == h.snapshots[i]);
        }
    }
    assert forall|i: int| 0 <= i < p.snapshots.len() implies (#[trigger] p.snapshots[i]).pixels.len()
        == extent_len(p.snapshots[i].extent) by {
        if i < h.cursor + 1 as int {
            assert(p.snapshots[i] == h.snapshots[i]);
        }
    }
}

/// Snapshot ids are dense and strictly increasing, and a push gives the new
/// snapshot the id after the current one, which after the truncation is the
/// largest id left.
pub proof fn lemma_snapshot_ids(h: HistoryView, pixels: Seq<Bgra8>, extent: ViewExtent)
    requires
        h.wf(),
        pixels.len() == extent_len(extent),
    ensures
        forall|i: int, j: int|
            0 <= i < j < h.snapshots.len() ==> #[trigger] h.snapshots[i].id < #[trigger] h.snapshots[j].id,
        push_spec(h, pixels, extent).current().id == h.current().id + 1,
        forall|i: int|
            0 <= i < push_spec(h, pixels, extent).snapshots.len() - 1 ==> #[trigger] push_spec(
                h,
                pixels,
                extent,
            ).snapshots[i].id < push_spec(h, pixels, extent).current().id,
{
    lemma_history_invariant(h, pixels, extent);
}

/// Pushing three buffers and undoing twice shows the first buffer again;
/// redoing twice then restores the state right after the third push.
pub proof fn lemma_undo_redo_symmetry(
    h: HistoryView,
    first: Seq<Bgra8>,
    e_first: ViewExtent,
    second: Seq<Bgra8>,
    e_second: ViewExtent,
    third: Seq<Bgra8>,
    e_third: ViewExtent,
)
    requires
        h.wf(),
    ensures
        ({
            let h1 = push_spec(h, first, e_first);
            let h3 = push_spec(push_spec(h1, second, e_second), third, e_third);
            let back = undo_spec(undo_spec(h3));
            &&& back.pixels == first
            &&& back.pixels == h1.pixels
            &&& redo_spec(redo_spec(back)) == h3
            &&& redo_spec(redo_spec(back)).pixels == third
        }),
{
    let h1 = push_spec(h, first, e_first);
    let h2 = push_spec(h1, second, e_second);
    let h3 = push_spec(h2, third, e_third);
    assert(h3.snapshots.len() == h.cursor + 4 as int);
    assert(h3.snapshots[h.cursor + 1 as int] == h2.snapshots[h.cursor + 1 as int]);
    assert(h3.snapshots[h.cursor + 2 as int] == h2.snapshots[h.cursor + 2 as int]);
    assert(h2.snapshots[h.cursor + 1 as int] == h1.snapshots[h.cursor + 1 as int]);
}

/// Pushing three buffers, undoing once and pushing a fourth leaves the
/// first, second and fourth buffers as the newest snapshots, with the cursor
/// on the fourth; the third can no longer be reached by redo.
pub proof fn lemma_branch_truncation(
    h: HistoryView,
    first: Seq<Bgra8>,
    e_first: ViewExtent,
    second: Seq<Bgra8>,
    e_second: ViewExtent,
    third: Seq<Bgra8>,
    e_third: ViewExtent,
    fourth: Seq<Bgra8>,
    e_fourth: ViewExtent,
)
    requires
        h.wf(),
    ensures
        ({
            let h3 = push_spec(push_spec(push_spec(h, first, e_first), second, e_second), third, e_third);
            let h4 = push_spec(undo_spec(h3), fourth, e_fourth);
            &&& h4.snapshots.len() == h.cursor + 4 as int
            &&& h4.snapshots.take(h.cursor + 1 as int) == h.snapshots.take(h.cursor + 1 as int)
            &&& h4.snapshots[h.cursor + 1 as int].pixels == first
            &&& h4.snapshots[h.cursor + 2 as int].pixels == second
            &&& h4.snapshots[h.cursor + 3 as int].pixels == fourth
            &&& h4.cursor == h.cursor + 3 as int
            &&& h4.pixels == fourth
            &&& redo_spec(h4) == h4
        }),
{
    let h1 = push_spec(h, first, e_first);
    let h2 = push_spec(h1, second, e_second);
    let h3 = push_spec(h2, third, e_third);
    let h4 = push_spec(undo_spec(h3), fourth, e_fourth);
    assert(h3.snapshots[h.cursor + 1 as int] == h2.snapshots[h.cursor + 1 as int]);
    assert(h3.snapshots[h.cursor + 2 as int] == h2.snapshots[h.cursor + 2 as int]);
    assert(h2.snapshots[h.cursor + 1 as int] == h1.snapshots[h.cursor + 1 as int]);
    assert(h4.snapshots.take(h.cursor + 1 as int) =~= h.snapshots.take(h.cursor + 1 as int));
}

} // verus!
