//! Multi-buffered (replica-rotated) GPU-visible memory, modeled host-side.
//!
//! A multi-buffer is an ordered sequence of replicas, one per frame that may
//! be in flight.  Each replica exclusively owns its bytes: writing one
//! replica never changes any other.  The replica count is fixed at
//! construction.  The device-facing allocation, mapping and freeing are the
//! caller's work; the caller records each created replica in a
//! [`MultiBufferBuilder`], which on failure hands back exactly the replicas
//! created so far, in reverse creation order, so none is leaked.
//!
//! The previous-frame alias is an index rotation over the same replicas,
//! not a second owning object: replica `i` of the alias is replica
//! `(i - 1) mod R` of the base resource.

use vstd::prelude::*;

verus! {

/// One replica: the caller's handle for the backing device allocation and
/// the replica's (host-mapped) bytes.
#[derive(Debug, Clone, PartialEq, Eq)]
pub struct MultiBufferUnit {
    /// The caller's name for the backing allocation; the plain constructor
    /// numbers replicas by index.
    pub memory_id: u64,
    pub data: Vec<u8>,
}

/// A multi-buffered memory resource: R replicas of `size` bytes each.
pub struct MultiBuffer {
    size: usize,
    units: Vec<MultiBufferUnit>,
}

impl View for MultiBuffer {
    type V = Seq<Seq<u8>>;

    /// The bytes of each replica, in replica order.
    closed spec fn view(&self) -> Seq<Seq<u8>> {
        self.units@.map(|i: int, u: MultiBufferUnit| u.data@)
    }
}

/// The replica index the previous-frame alias reads through: one step
/// backward in the rotation, wrapping at zero.
pub open spec fn spec_previous_index(index: int, count: int) -> int {
    if index == 0 {
        count - 1
    } else {
        index - 1
    }
}

/// The previous-frame alias of replica `i` is exactly the replica written
/// one rotation earlier: it is in range, it steps one back modulo the
/// replica count, and advancing it one rotation returns to `i`.
pub proof fn lemma_previous_alias(index: int, count: int)
    requires
        0 <= index < count,
    ensures
        0 <= spec_previous_index(index, count) < count,
        spec_previous_index(index, count) == (index - 1) % (count as int),
        (spec_previous_index(index, count) + 1) % (count as int) == index,
{
    if index == 0 {
        assert((0 - 1) % count == count - 1) by (nonlinear_arith)
            requires
                count >= 1,
        ;
        assert((count - 1 + 1) % count == 0) by (nonlinear_arith)
            requires
                count >= 1,
        ;
    } else {
        assert((index - 1) % count == index - 1) by (nonlinear_arith)
            requires
                0 <= index - 1 < count,
        ;
        assert((index - 1 + 1) % count == index) by (nonlinear_arith)
            requires
                0 <= index < count,
        ;
    }
}

impl MultiBuffer {
    /// Every replica holds exactly `spec_size` bytes; established by the
    /// constructors and kept by every method.
    pub closed spec fn wf(&self) -> bool {
        forall|i: int| 0 <= i < self.units@.len() ==> (#[trigger] self.units@[i]).data@.len()
            == self.size
    }

    /// The byte size every replica was created with.
    pub closed spec fn spec_size(&self) -> usize {
        self.size
    }

    /// Create `num_buffers` replicas of `size` zeroed bytes each, numbered
    /// by index.
    pub fn new(size: usize, num_buffers: usize) -> (buffer: MultiBuffer)
        ensures
            buffer.wf(),
            buffer@.len() == num_buffers,
            buffer.spec_size() == size,
            forall|i: int| 0 <= i < num_buffers ==> #[trigger] buffer@[i]
                =~= Seq::new(size as nat, |j: int| 0u8),
    {
        let mut units: Vec<MultiBufferUnit> = Vec::new();
        let mut i: usize = 0;
        while i < num_buffers
            invariant
                i <= num_buffers,
                units@.len() == i,
                forall|k: int| 0 <= k < i ==> (#[trigger] units@[k]).data@
                    =~= Seq::new(size as nat, |j: int| 0u8),
            decreases num_buffers - i,
        {
            let data: Vec<u8> = vec![0u8; size];
            proof {
                assert(forall|j: int| 0 <= j < size
                    ==> cloned::<u8>(0u8, #[trigger] data@[j]) ==> data@[j] == 0u8);
                assert(data@ =~= Seq::new(size as nat, |j: int| 0u8));
            }
            units.push(MultiBufferUnit { memory_id: i as u64, data });
            i += 1;
        }
        MultiBuffer { size, units }
    }

    /// The number of replicas, fixed at construction.
    pub fn replica_count(&self) -> (count: usize)
        ensures
            count == self@.len(),
    {
        self.units.len()
    }

    /// The byte size of each replica.
    pub fn size(&self) -> (size: usize)
        ensures
            size == self.spec_size(),
    {
        self.size
    }

    /// The handle of replica `index`'s backing allocation.
    pub fn memory_id(&self, index: usize) -> (id: u64)
        requires
            index < self@.len(),
        ensures
            id == self.spec_memory_id(index as int),
    {
        self.units[index].memory_id
    }

    /// The caller-recorded handle of replica `index`.
    pub closed spec fn spec_memory_id(&self, index: int) -> u64 {
        self.units@[index].memory_id
    }

    /// Read access to replica `index`'s mapped bytes.
    pub fn mapped(&self, index: usize) -> (data: &Vec<u8>)
        requires
            index < self@.len(),
        ensures
            data@ == self@[index as int],
    {
        &self.units[index].data
    }

    /// Write `bytes` into replica `index` at `offset`.  Only that replica
    /// changes: every other replica's bytes are untouched (the isolation
    /// the frame rotation relies on).
    pub fn write(&mut self, index: usize, offset: usize, bytes: &[u8])
        requires
            old(self).wf(),
            index < old(self)@.len(),
            offset + bytes@.len() <= old(self).spec_size(),
        ensures
            final(self).wf(),
            final(self).spec_size() == old(self).spec_size(),
            final(self)@.len() == old(self)@.len(),
            forall|j: int| 0 <= j < final(self)@.len() && j != index ==> #[trigger] final(self)@[j]
                == old(self)@[j],
            final(self)@[index as int].len() == old(self).spec_size(),
            forall|m: int| 0 <= m < offset ==> #[trigger] final(self)@[index as int][m]
                == old(self)@[index as int][m],
            forall|m: int| 0 <= m < bytes@.len() ==> #[trigger] final(self)@[index as int][offset + m]
                == bytes@[m],
            forall|m: int| offset + bytes@.len() <= m < old(self).spec_size()
                ==> #[trigger] final(self)@[index as int][m] == old(self)@[index as int][m],
            forall|j: int| 0 <= j < final(self)@.len() ==> #[trigger] final(self).spec_memory_id(j)
                == old(self).spec_memory_id(j),
    {
        let ghost old_units = self.units@;
        proof {
            assert(forall|j: int| 0 <= j < old_units.len() ==> #[trigger] old(self)@[j]
                == old_units[j].data@);
        }
        let count = bytes.len();
        let mut k: usize = 0;
        while k < count
            invariant
                k <= count,
                count == bytes@.len(),
                index < self.units@.len(),
                self.units@.len() == old_units.len(),
                offset + count <= self.size,
                self.size == old(self).size,
                self.wf(),
                forall|j: int| 0 <= j < self.units@.len() && j != index
                    ==> #[trigger] self.units@[j] == old_units[j],
                self.units@[index as int].memory_id == old_units[index as int].memory_id,
                self.units@[index as int].data@.len() == self.size,
                forall|m: int| 0 <= m < offset ==> #[trigger] self.units@[index as int].data@[m]
                    == old_units[index as int].data@[m],
                forall|m: int| 0 <= m < k ==> #[trigger] self.units@[index as int].data@[offset + m]
                    == bytes@[m],
                forall|m: int| offset + count <= m < self.size
                    ==> #[trigger] self.units@[index as int].data@[m]
                        == old_units[index as int].data@[m],
            decreases count - k,
        {
            self.units[index].data[offset + k] = bytes[k];
            k += 1;
        }
        proof {
            assert(forall|j: int| 0 <= j < self.units@.len() ==> #[trigger] self@[j]
                == self.units@[j].data@);
        }
    }

    /// Read access to the previous-frame alias of replica `index`: the
    /// bytes of replica `(index - 1) mod R` of this same resource.
    pub fn previous_replica(&self, index: usize) -> (data: &Vec<u8>)
        requires
            index < self@.len(),
        ensures
            data@ == self@[spec_previous_index(index as int, self@.len() as int)],
    {
        if index == 0 {
            &self.units[self.units.len() - 1].data
        } else {
            &self.units[index - 1].data
        }
    }

    /// The previous-frame alias: a read-only view of this resource shifted
    /// one replica backward.  It borrows the same replicas; nothing is
    /// copied and nothing new is owned, so recreating the base resource
    /// invalidates (and must be followed by re-deriving) the alias.
    pub fn previous_of(&self) -> (alias: PreviousFrameAlias<'_>)
        ensures
            alias.base == self,
    {
        PreviousFrameAlias { base: self }
    }
}

/// A read-only index-rotation view over a [`MultiBuffer`]'s replicas: the
/// alias's replica `i` is the base's replica `(i - 1) mod R`.
pub struct PreviousFrameAlias<'a> {
    pub base: &'a MultiBuffer,
}

impl<'a> PreviousFrameAlias<'a> {
    /// The bytes the alias's replica `index` observes: the content last
    /// written to the base's replica `(index - 1) mod R`.
    pub fn replica(&self, index: usize) -> (data: &Vec<u8>)
        requires
            index < self.base@.len(),
        ensures
            data@ == self.base@[spec_previous_index(index as int, self.base@.len() as int)],
    {
        self.base.previous_replica(index)
    }
}

/// Records the replicas a caller has successfully created while it builds a
/// multi-buffer, so that a partial failure can be rolled back without
/// leaking any of them.
pub struct MultiBufferBuilder {
    size: usize,
    target: usize,
    units: Vec<MultiBufferUnit>,
}

impl MultiBufferBuilder {
    /// Every recorded replica holds `size` bytes and no more than `target`
    /// are recorded.
    pub closed spec fn wf(&self) -> bool {
        self.units@.len() <= self.target && forall|i: int| 0 <= i < self.units@.len()
            ==> (#[trigger] self.units@[i]).data@.len() == self.size
    }

    /// The replicas recorded so far, in creation order.
    pub closed spec fn spec_units(&self) -> Seq<MultiBufferUnit> {
        self.units@
    }

    pub closed spec fn spec_size(&self) -> usize {
        self.size
    }

    pub closed spec fn spec_target(&self) -> usize {
        self.target
    }

    /// Start building a multi-buffer of `target` replicas of `size` bytes.
    pub fn new(size: usize, target: usize) -> (builder: MultiBufferBuilder)
        ensures
            builder.wf(),
            builder.spec_units() =~= Seq::<MultiBufferUnit>::empty(),
            builder.spec_size() == size,
            builder.spec_target() == target,
    {
        MultiBufferBuilder { size, target, units: Vec::new() }
    }

    /// Record one successfully created replica.
    pub fn add_unit(&mut self, unit: MultiBufferUnit)
        requires
            old(self).wf(),
            old(self).spec_units().len() < old(self).spec_target(),
            unit.data@.len() == old(self).spec_size(),
        ensures
            final(self).wf(),
            final(self).spec_units() =~= old(self).spec_units().push(unit),
            final(self).spec_size() == old(self).spec_size(),
            final(self).spec_target() == old(self).spec_target(),
    {
        self.units.push(unit);
    }

    /// How many replicas have been recorded.
    pub fn created(&self) -> (count: usize)
        ensures
            count == self.spec_units().len(),
    {
        self.units.len()
    }

    /// Whether all `target` replicas have been recorded.
    pub fn is_complete(&self) -> (complete: bool)
        ensures
            complete == (self.spec_units().len() == self.spec_target()),
    {
        self.units.len() == self.target
    }

    /// Turn the fully built set of replicas into the multi-buffer.
    pub fn finish(self) -> (buffer: MultiBuffer)
        requires
            self.wf(),
            self.spec_units().len() == self.spec_target(),
        ensures
            buffer.wf(),
            buffer.spec_size() == self.spec_size(),
            buffer@.len() == self.spec_target(),
            forall|i: int| 0 <= i < self.spec_units().len() ==> #[trigger] buffer@[i]
                == self.spec_units()[i].data@,
            forall|i: int| 0 <= i < self.spec_units().len() ==> #[trigger] buffer.spec_memory_id(i)
                == self.spec_units()[i].memory_id,
    {
        MultiBuffer { size: self.size, units: self.units }
    }

    /// Abandon a partial build: hand back exactly the replicas recorded so
    /// far, in reverse creation order, for the caller to unmap and free.
    /// Nothing is kept, so no successfully created replica is leaked.
    pub fn roll_back(self) -> (leftover: Vec<MultiBufferUnit>)
        ensures
            leftover@.len() == self.spec_units().len(),
            forall|i: int| 0 <= i < leftover@.len() ==> #[trigger] leftover@[i]
                == self.spec_units()[self.spec_units().len() - 1 - i],
    {
        let mut units = self.units;
        let mut leftover: Vec<MultiBufferUnit> = Vec::new();
        let ghost recorded = units@;
        while units.len() > 0
            invariant
                units@.len() + leftover@.len() == recorded.len(),
                units@ =~= recorded.take(units@.len() as int),
                forall|i: int| 0 <= i < leftover@.len() ==> #[trigger] leftover@[i]
                    == recorded[recorded.len() - 1 - i],
            decreases units@.len(),
        {
            let unit = units.pop().unwrap();
            leftover.push(unit);
        }
        leftover
    }
}


/// The image variant of a multi-buffered resource: R replicas of a
/// device image at one extent.  Image contents live on the device and are
/// never host-mapped; what this type manages is the replica structure —
/// the caller's handle for each replica, the extent they were created at,
/// and the previous-frame rotation.  On a surface resize the whole replica
/// set is replaced, so any previously derived alias must be re-derived.
pub struct MultiImage {
    width: u32,
    height: u32,
    image_ids: Vec<u64>,
}

impl MultiImage {
    /// The caller's handle for each replica, in replica order.
    pub closed spec fn spec_image_ids(&self) -> Seq<u64> {
        self.image_ids@
    }

    /// The extent the replicas were created at.
    pub closed spec fn spec_extent(&self) -> (u32, u32) {
        (self.width, self.height)
    }

    /// An image resource of `image_ids.len()` replicas at the given
    /// extent, one device image per handle.
    pub fn new(width: u32, height: u32, image_ids: Vec<u64>) -> (image: MultiImage)
        ensures
            image.spec_extent() == (width, height),
            image.spec_image_ids() == image_ids@,
    {
        MultiImage { width, height, image_ids }
    }

    pub fn replica_count(&self) -> (count: usize)
        ensures
            count == self.spec_image_ids().len(),
    {
        self.image_ids.len()
    }

    pub fn extent(&self) -> (extent: (u32, u32))
        ensures
            extent == self.spec_extent(),
    {
        (self.width, self.height)
    }

    /// The handle of replica `index`.
    pub fn replica(&self, index: usize) -> (id: u64)
        requires
            index < self.spec_image_ids().len(),
        ensures
            id == self.spec_image_ids()[index as int],
    {
        self.image_ids[index]
    }

    /// The previous-frame alias: a read-only view whose replica `i` is
    /// this resource's replica `(i - 1) mod R`.  It borrows the same
    /// replicas; recreating the base resource invalidates it, and it must
    /// then be derived again.
    pub fn previous_of(&self) -> (alias: PreviousImageAlias<'_>)
        ensures
            alias.base == self,
    {
        PreviousImageAlias { base: self }
    }

    /// Replace every replica: the old handles come back in reverse
    /// creation order for the caller to destroy (after draining the
    /// device), and the resource now stands at the new extent with the
    /// new handles.
    pub fn recreate(&mut self, width: u32, height: u32, image_ids: Vec<u64>) -> (old_ids: Vec<
        u64,
    >)
        ensures
            final(self).spec_extent() == (width, height),
            final(self).spec_image_ids() == image_ids@,
            old_ids@.len() == old(self).spec_image_ids().len(),
            forall|i: int| 0 <= i < old_ids@.len() ==> #[trigger] old_ids@[i]
                == old(self).spec_image_ids()[old(self).spec_image_ids().len() - 1 - i],
    {
        self.width = width;
        self.height = height;
        let mut replaced = image_ids;
        core::mem::swap(&mut replaced, &mut self.image_ids);
        let ghost recorded = replaced@;
        let mut old_ids: Vec<u64> = Vec::new();
        while replaced.len() > 0
            invariant
                replaced@.len() + old_ids@.len() == recorded.len(),
                replaced@ =~= recorded.take(replaced@.len() as int),
                forall|i: int| 0 <= i < old_ids@.len() ==> #[trigger] old_ids@[i]
                    == recorded[recorded.len() - 1 - i],
            decreases replaced@.len(),
        {
            let id = replaced.pop().unwrap();
            old_ids.push(id);
        }
        old_ids
    }
}

/// A read-only index-rotation view over a [`MultiImage`]'s replicas: the
/// alias's replica `i` is the base's replica `(i - 1) mod R`.
pub struct PreviousImageAlias<'a> {
    pub base: &'a MultiImage,
}

impl<'a> PreviousImageAlias<'a> {
    /// The handle the alias's replica `index` reads through: the base's
    /// replica `(index - 1) mod R`.
    pub fn replica(&self, index: usize) -> (id: u64)
        requires
            index < self.base.spec_image_ids().len(),
        ensures
            id == self.base.spec_image_ids()[spec_previous_index(
                index as int,
                self.base.spec_image_ids().len() as int,
            )],
    {
        if index == 0 {
            self.base.image_ids[self.base.image_ids.len() - 1]
        } else {
            self.base.image_ids[index - 1]
        }
    }
}

} // verus!
