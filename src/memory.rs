//! The segment table: variable-length arrays of 32-bit cells under stable
//! 32-bit identifiers.

use vstd::prelude::*;

verus! {

/// The largest number of segment identifiers: every identifier is a `u32`.
pub const ID_SPACE: u64 = 0x1_0000_0000;

/// A segment of `n` cells, all zero.
pub open spec fn zeros(n: nat) -> Seq<u32> {
    Seq::new(n, |i: int| 0u32)
}

/// The abstract segment table: for each identifier ever issued, the
/// segment it refers to (`None` once freed), and the pool of freed
/// identifiers, the most recently freed last.
pub struct TableModel {
    pub slots: Seq<Option<Seq<u32>>>,
    pub free: Seq<u32>,
}

impl TableModel {
    /// Identifiers fit in 32 bits; the pool holds exactly the freed slots, once each.
    pub open spec fn wf(self) -> bool {
        &&& self.slots.len() <= ID_SPACE
        &&& self.free.no_duplicates()
        &&& forall|i: int|
            0 <= i < self.free.len() ==> {
                &&& (#[trigger] self.free[i] as int) < self.slots.len()
                &&& self.slots[self.free[i] as int] is None
            }
        &&& forall|id: int|
            0 <= id < self.slots.len() && #[trigger] self.slots[id] is None ==> self.free.contains(
                id as u32,
            )
    }

    pub open spec fn is_live(self, id: int) -> bool {
        0 <= id < self.slots.len() && self.slots[id] is Some
    }

    /// The cells of a live segment.
    pub open spec fn segment(self, id: int) -> Seq<u32> {
        self.slots[id]->Some_0
    }

    pub open spec fn can_allocate(self) -> bool {
        self.free.len() > 0 || self.slots.len() < ID_SPACE
    }

    /// The identifier the next allocation returns: the most recently freed
    /// one, or else the next never-issued one.
    pub open spec fn next_id(self) -> u32 {
        if self.free.len() > 0 {
            self.free.last()
        } else {
            self.slots.len() as u32
        }
    }

    /// The table after allocating a zeroed segment of `size` cells.
    pub open spec fn allocated(self, size: nat) -> TableModel {
        if self.free.len() > 0 {
            TableModel {
                slots: self.slots.update(self.free.last() as int, Some(zeros(size))),
                free: self.free.drop_last(),
            }
        } else {
            TableModel { slots: self.slots.push(Some(zeros(size))), free: self.free }
        }
    }

    /// The table after freeing `id`.
    pub open spec fn freed(self, id: u32) -> TableModel {
        TableModel { slots: self.slots.update(id as int, None), free: self.free.push(id) }
    }

    /// The table after writing `value` into cell `offset` of segment `id`.
    pub open spec fn written(self, id: u32, offset: int, value: u32) -> TableModel {
        TableModel {
            slots: self.slots.update(id as int, Some(self.segment(id as int).update(offset, value))),
            free: self.free,
        }
    }

    /// `self` is `old` but for segment `id`, which holds `cells`: the
    /// pointwise form of `self == old.replaced(id, cells)`.
    pub open spec fn agrees_but_for(self, old: TableModel, id: u32, cells: Seq<u32>) -> bool {
        &&& self.free == old.free
        &&& self.slots.len() == old.slots.len()
        &&& self.slots[id as int] == Some(cells)
        &&& forall|j: int|
            0 <= j < self.slots.len() && j != id as int ==> #[trigger] self.slots[j] == old.slots[j]
    }

    /// The table after segment `id` takes the cells `cells`.
    pub open spec fn replaced(self, id: u32, cells: Seq<u32>) -> TableModel {
        TableModel { slots: self.slots.update(id as int, Some(cells)), free: self.free }
    }
}

pub proof fn lemma_agrees_but_for(new: TableModel, old: TableModel, id: u32, cells: Seq<u32>)
    requires
        new.agrees_but_for(old, id, cells),
        (id as int) < old.slots.len(),
    ensures
        new == old.replaced(id, cells),
{
    assert(new.slots =~= old.replaced(id, cells).slots);
}

/// In a well-formed table an identifier is live exactly when it has been
/// issued (it lies below the high-water mark) and is not in the pool of
/// freed identifiers.
pub proof fn lemma_live_iff_issued_and_not_freed(t: TableModel, id: u32)
    requires
        t.wf(),
    ensures
        t.is_live(id as int) <==> (id as int) < t.slots.len() && !t.free.contains(id),
{
    if t.free.contains(id) {
        let k = choose|k: int| 0 <= k < t.free.len() && t.free[k] == id;
        assert(t.slots[t.free[k] as int] is None);
    }
}

/// Allocating a segment and freeing it again leaves every live segment as
/// it was; the only trace is the identifier, which is back on top of the
/// pool. (Segment 0 cannot be freed, hence the first clause.)
pub proof fn lemma_allocate_then_free(t: TableModel, size: nat)
    requires
        t.wf(),
        t.can_allocate(),
        t.next_id() != 0,
    ensures
        ({
            let id = t.next_id();
            let u = t.allocated(size).freed(id);
            &&& u.wf()
            &&& forall|j: int| #[trigger] u.is_live(j) <==> t.is_live(j)
            &&& forall|j: int| t.is_live(j) ==> #[trigger] u.segment(j) == t.segment(j)
            &&& u.free.last() == id
            &&& u.free == if t.free.len() > 0 {
                t.free
            } else {
                t.free.push(id)
            }
        }),
{
    let id = t.next_id();
    let a = t.allocated(size);
    let u = a.freed(id);
    if t.free.len() > 0 {
        assert(u.free =~= t.free);
        assert(u.slots =~= t.slots);
    } else {
        assert forall|j: int| #[trigger] u.is_live(j) <==> t.is_live(j) by {}
        assert forall|j: int| 0 <= j < u.slots.len() && #[trigger] u.slots[j] is None implies u.free.contains(
            j as u32,
        ) by {
            if j == id as int {
                assert(u.free[u.free.len() - 1] == id);
            } else {
                assert(t.free.contains(j as u32));
                let k = choose|k: int| 0 <= k < t.free.len() && t.free[k] == j as u32;
                assert(u.free[k] == j as u32);
            }
        }
        assert forall|i: int| 0 <= i < u.free.len() implies {
            &&& (#[trigger] u.free[i] as int) < u.slots.len()
            &&& u.slots[u.free[i] as int] is None
        } by {
            if i < t.free.len() {
                assert(u.free[i] == t.free[i]);
            }
        }
    }
}

/// After `allocate(n); free(id)`, the next allocation returns `id` again.
pub proof fn lemma_reuse_after_free(t: TableModel, size: nat)
    requires
        t.wf(),
        t.can_allocate(),
        t.next_id() != 0,
    ensures
        ({
            let u = t.allocated(size).freed(t.next_id());
            &&& u.can_allocate()
            &&& u.next_id() == t.next_id()
        }),
{
}

pub open spec fn slot_view(s: Option<Vec<u32>>) -> Option<Seq<u32>> {
    match s {
        Some(v) => Some(v@),
        None => None,
    }
}

/// Owns every segment and hands out identifiers: freed identifiers are
/// reused most recent first, otherwise the next never-used one is issued,
/// starting from 0.
#[derive(Debug)]
pub struct SegmentManager {
    segments: Vec<Option<Vec<u32>>>,
    unmapped_ids: Vec<u32>,
}

impl View for SegmentManager {
    type V = TableModel;

    closed spec fn view(&self) -> TableModel {
        TableModel {
            slots: self.segments@.map_values(|s: Option<Vec<u32>>| slot_view(s)),
            free: self.unmapped_ids@,
        }
    }
}

impl SegmentManager {
    /// An empty table: no identifier issued yet.
    pub fn new() -> (r: Self)
        ensures
            r@.slots == Seq::<Option<Seq<u32>>>::empty(),
            r@.free == Seq::<u32>::empty(),
            r@.wf(),
    {
        let r = SegmentManager { segments: Vec::new(), unmapped_ids: Vec::new() };
        assert(r@.slots =~= Seq::<Option<Seq<u32>>>::empty());
        r
    }

    /// Allocates a zeroed segment of `size` cells and returns its identifier.
    pub fn allocate_segment(&mut self, size: usize) -> (id: u32)
        requires
            old(self)@.wf(),
            old(self)@.can_allocate(),
        ensures
            id == old(self)@.next_id(),
            final(self)@ == old(self)@.allocated(size as nat),
            final(self)@.wf(),
            final(self)@.is_live(id as int),
            final(self)@.segment(id as int) == zeros(size as nat),
    {
        let ghost t = self@;
        let cells: Vec<u32> = vec![0u32; size];
        assert(cells@ =~= zeros(size as nat));
        let id: u32 = match self.unmapped_ids.pop() {
            Some(reused) => {
                assert(t.free[t.free.len() - 1] == reused);
                self.segments[reused as usize] = Some(cells);
                reused
            },
            None => {
                let fresh = self.segments.len() as u32;
                self.segments.push(Some(cells));
                fresh
            },
        };
        assert(self@.slots =~= t.allocated(size as nat).slots);
        proof {
            let n = self@;
            if t.free.len() > 0 {
                assert forall|i: int| 0 <= i < n.free.len() implies {
                    &&& (#[trigger] n.free[i] as int) < n.slots.len()
                    &&& n.slots[n.free[i] as int] is None
                } by {
                    assert(n.free[i] == t.free[i]);
                    assert(t.free[i] != t.free[t.free.len() - 1]);
                }
                assert forall|j: int|
                    0 <= j < n.slots.len() && #[trigger] n.slots[j] is None implies n.free.contains(
                    j as u32,
                ) by {
                    assert(t.free.contains(j as u32));
                    let k = choose|k: int| 0 <= k < t.free.len() && t.free[k] == j as u32;
                    assert(k != t.free.len() - 1);
                    assert(n.free[k] == j as u32);
                }
            } else {
                assert forall|i: int| 0 <= i < n.free.len() implies {
                    &&& (#[trigger] n.free[i] as int) < n.slots.len()
                    &&& n.slots[n.free[i] as int] is None
                } by {
                    assert(n.free[i] == t.free[i]);
                }
            }
        }
        id
    }

    /// Frees a live segment other than segment 0; its identifier goes to
    /// the pool for reuse.
    pub fn deallocate_segment(&mut self, id: u32)
        requires
            old(self)@.wf(),
            old(self)@.is_live(id as int),
            id != 0,
        ensures
            final(self)@ == old(self)@.freed(id),
            final(self)@.wf(),
    {
        let ghost t = self@;
        self.segments[id as usize] = None;
        self.unmapped_ids.push(id);
        assert(self@.slots =~= t.freed(id).slots);
        proof {
            let n = self@;
            assert(!t.free.contains(id));
            assert forall|i: int| 0 <= i < n.free.len() implies {
                &&& (#[trigger] n.free[i] as int) < n.slots.len()
                &&& n.slots[n.free[i] as int] is None
            } by {
                if i < t.free.len() {
                    assert(n.free[i] == t.free[i]);
                }
            }
            assert forall|j: int|
                0 <= j < n.slots.len() && #[trigger] n.slots[j] is None implies n.free.contains(
                j as u32,
            ) by {
                if j == id as int {
                    assert(n.free[n.free.len() - 1] == id);
                } else {
                    assert(t.slots[j] is None);
                    let k = choose|k: int| 0 <= k < t.free.len() && t.free[k] == j as u32;
                    assert(n.free[k] == j as u32);
                }
            }
        }
    }

    /// The cells of segment `id`, or `None` where `id` is not live.
    pub fn get_segment(&self, id: u32) -> (r: Option<&Vec<u32>>)
        ensures
            r is Some <==> self@.is_live(id as int),
            r is Some ==> r->Some_0@ == self@.segment(id as int),
    {
        if (id as usize) < self.segments.len() {
            match &self.segments[id as usize] {
                Some(seg) => Some(seg),
                None => None,
            }
        } else {
            None
        }
    }

    /// Mutable access to the cells of segment `id`, or `None` where `id` is
    /// not live. Whatever the caller leaves behind the reference becomes the
    /// segment's cells.
    pub fn get_segment_mut(&mut self, id: u32) -> (r: Option<&mut Vec<u32>>)
        ensures
            r is Some <==> old(self)@.is_live(id as int),
            r is None ==> final(self)@ == old(self)@,
            r is Some ==> {
                &&& (*r->Some_0)@ == old(self)@.segment(id as int)
                &&& final(self)@.agrees_but_for(old(self)@, id, (*final(r->Some_0))@)
            },
    {
        if (id as usize) >= self.segments.len() || self.segments[id as usize].is_none() {
            return None;
        }
        let slot = &mut self.segments[id as usize];
        slot.as_mut()
    }

    pub fn can_allocate(&self) -> (r: bool)
        ensures
            r == self@.can_allocate(),
    {
        self.unmapped_ids.len() > 0 || (self.segments.len() as u64) < ID_SPACE
    }
}

} // verus!
