use vstd::prelude::*;

use crate::entity::{unplaced, Entity, Location, NoSuchEntity, ID_SPACE};

verus! {

/// One slot of the slot table: the id's current generation and where it is stored.
#[derive(Clone, Copy, Debug, PartialEq, Eq, Structural)]
pub struct EntityMeta {
    pub generation: u32,
    pub location: Location,
}

/// A fresh slot: generation 0, not yet placed.
pub open spec fn empty_meta() -> EntityMeta {
    EntityMeta { generation: 0, location: unplaced() }
}

/// The generation that follows `g`, wrapping around after `u32::MAX`.
pub open spec fn next_generation(g: u32) -> u32 {
    if g == u32::MAX {
        0
    } else {
        (g + 1) as u32
    }
}

impl EntityMeta {
    /// A fresh slot: generation 0, not yet placed.
    pub fn empty() -> (r: EntityMeta)
        ensures
            r == empty_meta(),
    {
        EntityMeta { generation: 0, location: Location::unplaced() }
    }
}

/// The allocator of entity ids.
///
/// `pending` holds recycled ids; `free_cursor` splits it in two:
///
/// ```text
/// [0, free_cursor)              freelist: ids that can be handed out
/// [free_cursor, pending.len())  reserved: handed out, waiting for `flush`
/// ```
///
/// When `free_cursor` is negative, the freelist is empty and `-free_cursor`
/// brand-new ids, counting up from `meta.len()`, have been reserved and wait
/// for `flush` to give them a slot. Reservation only moves the cursor down,
/// so reservations made one after another take disjoint runs of cursor
/// positions and hence disjoint ids.
///
/// Every operation takes `&mut self`, reservations included: callers that
/// reserve from several threads serialize those calls (a lock around the
/// allocator), and the order in which they run is the order in which the
/// cursor moves.
pub struct Entities {
    meta: Vec<EntityMeta>,
    pending: Vec<u32>,
    free_cursor: i64,
}

/// Handles handed out by one call of `Entities::reserve_entities`.
pub struct ReserveEntitiesIterator {
    items: Vec<Entity>,
    pos: usize,
}

impl Entities {
    /// The slot table, indexed by id.
    pub closed spec fn slots(&self) -> Seq<EntityMeta> {
        self.meta@
    }

    /// The list of recycled ids (freelist, then reserved).
    pub closed spec fn pending_ids(&self) -> Seq<u32> {
        self.pending@
    }

    /// The free cursor.
    pub closed spec fn cursor(&self) -> int {
        self.free_cursor as int
    }

    /// How many brand-new ids, beyond the slot table, are reserved and unflushed.
    pub open spec fn num_new(&self) -> int {
        if self.cursor() < 0 {
            -self.cursor()
        } else {
            0
        }
    }

    /// Well-formedness: the cursor lies within the pending list (or below it),
    /// every recycled id has a slot, every id handed out fits in 32 bits and
    /// in the address space, and the pending list's length fits the cursor's type.
    pub open spec fn wf(&self) -> bool {
        &&& self.cursor() <= self.pending_ids().len()
        &&& forall|i: int|
            0 <= i < self.pending_ids().len() ==> (#[trigger] self.pending_ids()[i]) < self.slots().len()
        &&& self.slots().len() + self.num_new() <= ID_SPACE
        &&& self.slots().len() + self.num_new() <= usize::MAX
        &&& self.pending_ids().len() <= i64::MAX
    }

    /// No reservation is outstanding.
    pub open spec fn is_flushed(&self) -> bool {
        self.cursor() == self.pending_ids().len()
    }

    /// `e` names the entity that currently holds its id's slot.
    pub open spec fn is_live(&self, e: Entity) -> bool {
        e.id < self.slots().len() && self.slots()[e.id as int].generation == e.generation
    }

    /// `e.id` is a brand-new id that has been reserved and not yet flushed.
    pub open spec fn is_pending_new(&self, e: Entity) -> bool {
        self.slots().len() <= e.id < self.slots().len() + self.num_new()
    }

    /// What `contains` answers: live, or reserved beyond the slot table.
    pub open spec fn contains_spec(&self, e: Entity) -> bool {
        self.is_live(e) || self.is_pending_new(e)
    }

    /// The handle reserved at cursor position `p`: a freelist entry with its
    /// current generation when `p >= 0`, else the brand-new id
    /// `slots.len() + (-p - 1)` with generation 0.
    pub open spec fn reserved_at(&self, p: int) -> Entity {
        if p >= 0 {
            Entity {
                generation: self.slots()[self.pending_ids()[p] as int].generation,
                id: self.pending_ids()[p],
            }
        } else {
            Entity { generation: 0, id: (self.slots().len() - p - 1) as u32 }
        }
    }

    /// `count` more ids can be reserved without exhausting the id space (or
    /// the address space, where it is smaller).
    pub open spec fn can_reserve(&self, count: int) -> bool {
        &&& self.slots().len() - vstd::math::min(self.cursor() - count, 0) <= ID_SPACE
        &&& self.slots().len() - vstd::math::min(self.cursor() - count, 0) <= usize::MAX
    }

    /// Cursor position of the `j`-th handle of a batch of `count` reserved
    /// below `end`: freelist positions in ascending order first, then the
    /// brand-new ids in ascending id order.
    pub open spec fn batch_position(end: int, count: int, j: int) -> int {
        let fs = vstd::math::max(end - count, 0);
        let f = vstd::math::max(end, 0) - fs;
        if j < f {
            fs + j
        } else {
            vstd::math::min(end, 0) - 1 - (j - f)
        }
    }

    /// The handles of a batch of `count` reserved when the cursor stood at `end`.
    pub open spec fn batch(&self, end: int, count: nat) -> Seq<Entity> {
        Seq::new(count, |j: int| self.reserved_at(Self::batch_position(end, count as int, j)))
    }

    /// The recycled ids that can be handed out are pairwise distinct.
    pub open spec fn freelist_distinct(&self) -> bool {
        forall|i: int, j: int|
            0 <= i < j < self.cursor() ==> #[trigger] self.pending_ids()[i] != #[trigger] self.pending_ids()[j]
    }

    /// The ids reserved at cursor positions `[end - count, end)`.
    pub open spec fn reserved_ids(&self, end: int, count: int) -> Set<u32> {
        Set::new(|id: u32| exists|p: int| end - count <= p < end && #[trigger] self.reserved_at(p).id == id)
    }

    /// The ids that `flush` materializes, in order: the brand-new ids first,
    /// ascending, then the reserved part of the pending list.
    pub open spec fn flushed_ids(&self) -> Seq<u32> {
        Seq::new(self.num_new() as nat, |j: int| (self.slots().len() + j) as u32)
            + self.pending_ids().skip(vstd::math::max(self.cursor(), 0))
    }

    /// An empty allocator.
    pub fn new() -> (r: Self)
        ensures
            r.wf(),
            r.is_flushed(),
            r.slots().len() == 0,
            r.pending_ids().len() == 0,
    {
        Entities { meta: Vec::new(), pending: Vec::new(), free_cursor: 0 }
    }

    /// Whether reservations wait for `flush`.
    pub fn needs_flush(&self) -> (r: bool)
        requires
            self.wf(),
        ensures
            r == !self.is_flushed(),
    {
        self.free_cursor != self.pending.len() as i64
    }

    /// The current free cursor.
    pub fn free_cursor(&self) -> (r: i64)
        ensures
            r as int == self.cursor(),
    {
        self.free_cursor
    }

    /// Number of slots in the slot table.
    pub fn len(&self) -> (r: usize)
        ensures
            r == self.slots().len(),
    {
        self.meta.len()
    }

    /// Whether `entity` is live, or a brand-new id reserved and not yet flushed.
    pub fn contains(&self, entity: Entity) -> (r: bool)
        requires
            self.wf(),
        ensures
            r == self.contains_spec(entity),
    {
        let len = self.meta.len();
        if (entity.id as usize) < len {
            self.meta[entity.id as usize].generation == entity.generation
        } else {
            let num_new: u64 = if self.free_cursor < 0 {
                (-self.free_cursor) as u64
            } else {
                0
            };
            (entity.id as u64) < len as u64 + num_new
        }
    }

    /// Drop every slot and every recycled id.
    pub fn clear(&mut self)
        ensures
            final(self).wf(),
            final(self).is_flushed(),
            final(self).slots().len() == 0,
            final(self).pending_ids().len() == 0,
    {
        self.meta.clear();
        self.pending.clear();
        self.free_cursor = 0;
    }

    /// The location of a live entity; the unplaced location for a brand-new
    /// id reserved and not yet flushed; `NoSuchEntity` for anything else.
    pub fn get(&self, entity: Entity) -> (r: Result<Location, NoSuchEntity>)
        requires
            self.wf(),
        ensures
            self.is_live(entity) ==> r == Ok::<Location, NoSuchEntity>(
                self.slots()[entity.id as int].location,
            ),
            self.is_pending_new(entity) ==> r == Ok::<Location, NoSuchEntity>(unplaced()),
            !self.contains_spec(entity) ==> r == Err::<Location, NoSuchEntity>(NoSuchEntity),
    {
        if (entity.id as usize) < self.meta.len() {
            let meta = self.meta[entity.id as usize];
            if meta.generation != entity.generation {
                return Err(NoSuchEntity);
            }
            Ok(meta.location)
        } else if self.contains(entity) {
            Ok(Location::unplaced())
        } else {
            Err(NoSuchEntity)
        }
    }

    /// The full handle of an id that is allocated or reserved: the slot's
    /// generation, or generation 0 for a brand-new id not yet flushed.
    pub fn resolve_unknown_gen(&self, id: u32) -> (r: Entity)
        requires
            self.wf(),
            id < self.slots().len() + self.num_new(),
        ensures
            id < self.slots().len() ==> r == (Entity {
                generation: self.slots()[id as int].generation,
                id,
            }),
            id >= self.slots().len() ==> r == (Entity { generation: 0, id }),
            self.contains_spec(r),
    {
        if (id as usize) < self.meta.len() {
            Entity { generation: self.meta[id as usize].generation, id }
        } else {
            Entity { generation: 0, id }
        }
    }

    /// Allocate an id directly: the last recycled id with its current
    /// generation, or else a new slot at the end of the table.
    pub fn allocate(&mut self) -> (r: Entity)
        requires
            old(self).wf(),
            old(self).is_flushed(),
            old(self).pending_ids().len() > 0 || old(self).can_reserve(1),
        ensures
            final(self).wf(),
            final(self).is_flushed(),
            final(self).is_live(r),
            final(self).contains_spec(r),
            old(self).pending_ids().len() > 0 ==> {
                let id = old(self).pending_ids().last();
                &&& r == (Entity { generation: old(self).slots()[id as int].generation, id })
                &&& final(self).slots() == old(self).slots()
                &&& final(self).pending_ids() == old(self).pending_ids().drop_last()
            },
            old(self).pending_ids().len() == 0 ==> {
                &&& r == (Entity { generation: 0, id: old(self).slots().len() as u32 })
                &&& final(self).slots() == old(self).slots().push(empty_meta())
                &&& final(self).pending_ids() == old(self).pending_ids()
            },
    {
        if let Some(id) = self.pending.pop() {
            self.free_cursor = self.pending.len() as i64;
            assert(old(self).pending@[old(self).pending@.len() - 1] == id);
            Entity { generation: self.meta[id as usize].generation, id }
        } else {
            let id = self.meta.len() as u32;
            self.meta.push(EntityMeta::empty());
            assert(forall|i: int|
                0 <= i < self.pending@.len() ==> #[trigger] self.pending@[i] < self.meta@.len());
            Entity { generation: 0, id }
        }
    }

    /// Destroy a live entity: advance its generation (wrapping), reset its
    /// location and recycle its id. Returns the old location, or
    /// `NoSuchEntity`, with nothing changed, when `entity` is not live.
    pub fn free(&mut self, entity: Entity) -> (r: Result<Location, NoSuchEntity>)
        requires
            old(self).wf(),
            old(self).is_flushed(),
            old(self).pending_ids().len() < i64::MAX,
        ensures
            final(self).wf(),
            final(self).is_flushed(),
            r is Err <==> !old(self).is_live(entity),
            r is Err ==> r == Err::<Location, NoSuchEntity>(NoSuchEntity)
                && final(self).slots() == old(self).slots()
                && final(self).pending_ids() == old(self).pending_ids(),
            r is Ok ==> {
                let old_meta = old(self).slots()[entity.id as int];
                &&& r == Ok::<Location, NoSuchEntity>(old_meta.location)
                &&& final(self).slots() == old(self).slots().update(
                    entity.id as int,
                    EntityMeta { generation: next_generation(old_meta.generation), location: unplaced() },
                )
                &&& final(self).pending_ids() == old(self).pending_ids().push(entity.id)
                &&& !final(self).contains_spec(entity)
            },
    {
        if entity.id as usize >= self.meta.len() {
            return Err(NoSuchEntity);
        }
        let meta = self.meta[entity.id as usize];
        if meta.generation != entity.generation {
            return Err(NoSuchEntity);
        }
        let generation = if meta.generation == u32::MAX {
            0
        } else {
            meta.generation + 1
        };
        self.meta.set(
            entity.id as usize,
            EntityMeta { generation, location: Location::unplaced() },
        );
        self.pending.push(entity.id);
        self.free_cursor = self.pending.len() as i64;
        assert(forall|i: int|
            0 <= i < self.pending@.len() ==> #[trigger] self.pending@[i] < self.meta@.len()) by {
            assert(forall|i: int|
                0 <= i < old(self).pending@.len() ==> self.pending@[i] == old(self).pending@[i]);
        }
        Ok(meta.location)
    }
}

impl Entities {
    /// Reserve one id: the top of the freelist with its current generation,
    /// or else the next brand-new id beyond the slot table with generation 0.
    /// `flush` must run before the handle's slot exists.
    pub fn reserve_entity(&mut self) -> (r: Entity)
        requires
            old(self).wf(),
            old(self).can_reserve(1),
        ensures
            final(self).wf(),
            final(self).slots() == old(self).slots(),
            final(self).pending_ids() == old(self).pending_ids(),
            final(self).cursor() == old(self).cursor() - 1,
            r == old(self).reserved_at(old(self).cursor() - 1),
            final(self).contains_spec(r),
    {
        let n = self.free_cursor;
        let plen = self.pending.len();
        assert(n <= plen);
        self.free_cursor = n - 1;
        if n > 0 {
            let id = self.pending[(n - 1) as usize];
            Entity { generation: self.meta[id as usize].generation, id }
        } else {
            Entity { generation: 0, id: (self.meta.len() as i64 - n) as u32 }
        }
    }

    /// Reserve `count` ids at once: those left in the freelist first, then
    /// brand-new ids counting up from the end of the slot table.
    pub fn reserve_entities(&mut self, count: u32) -> (r: ReserveEntitiesIterator)
        requires
            old(self).wf(),
            old(self).can_reserve(count as int),
        ensures
            final(self).wf(),
            final(self).slots() == old(self).slots(),
            final(self).pending_ids() == old(self).pending_ids(),
            final(self).cursor() == old(self).cursor() - count,
            r.inv(),
            r.remaining() == old(self).batch(old(self).cursor(), count as nat),
            forall|j: int| 0 <= j < count ==> final(self).contains_spec(#[trigger] r.remaining()[j]),
    {
        let ghost batch = old(self).batch(old(self).cursor(), count as nat);
        let range_end = self.free_cursor;
        let range_start = range_end - count as i64;
        let plen = self.pending.len();
        assert(range_start <= range_end <= plen);
        self.free_cursor = range_start;
        let fs: usize = if range_start > 0 {
            range_start as usize
        } else {
            0
        };
        let fe: usize = if range_end > 0 {
            range_end as usize
        } else {
            0
        };
        let mut items: Vec<Entity> = Vec::new();
        let mut i: usize = fs;
        while i < fe
            invariant
                fs <= i <= fe <= self.pending@.len(),
                fs == vstd::math::max(range_start as int, 0),
                fe == vstd::math::max(range_end as int, 0),
                range_end == old(self).cursor(),
                range_start == range_end - count,
                self.wf(),
                self.meta@ == old(self).meta@,
                self.pending@ == old(self).pending@,
                batch == old(self).batch(range_end as int, count as nat),
                items@ == batch.take(i - fs),
            decreases fe - i,
        {
            let id = self.pending[i];
            items.push(Entity { generation: self.meta[id as usize].generation, id });
            assert(items@ =~= batch.take(i + 1 - fs));
            i += 1;
        }
        if range_start < 0 {
            let base = self.meta.len() as i64;
            let new_start: i64 = if range_end < 0 {
                base - range_end
            } else {
                base
            };
            let new_end: i64 = base - range_start;
            let mut k: i64 = new_start;
            while k < new_end
                invariant
                    new_start <= k <= new_end <= ID_SPACE,
                    new_start == base - vstd::math::min(range_end as int, 0),
                    base == old(self).meta@.len(),
                    fs == vstd::math::max(range_start as int, 0),
                    fe == vstd::math::max(range_end as int, 0),
                    new_end == base - range_start,
                    old(self).can_reserve(count as int),
                    range_end == old(self).cursor(),
                    range_start == range_end - count,
                    range_start < 0,
                    self.meta@ == old(self).meta@,
                    self.pending@ == old(self).pending@,
                    batch == old(self).batch(range_end as int, count as nat),
                    items@ == batch.take(fe - fs + k - new_start),
                decreases new_end - k,
            {
                items.push(Entity { generation: 0, id: k as u32 });
                let ghost j = fe - fs + k - new_start;
                assert(Self::batch_position(range_end as int, count as int, j) == vstd::math::min(
                    range_end as int,
                    0,
                ) - 1 - (k - new_start));
                assert(batch[j] == Entity { generation: 0, id: k as u32 });
                assert(items@ =~= batch.take(fe - fs + k + 1 - new_start));
                k += 1;
            }
        }
        assert(items@ =~= batch);
        let r = ReserveEntitiesIterator { items, pos: 0 };
        assert(r.remaining() =~= batch);
        r
    }
}

impl ReserveEntitiesIterator {
    /// The handles not yet handed out, in order.
    pub closed spec fn remaining(&self) -> Seq<Entity> {
        self.items@.skip(self.pos as int)
    }

    /// The position lies within the reserved handles.
    pub closed spec fn inv(&self) -> bool {
        self.pos <= self.items@.len()
    }

    /// The next reserved handle, if any is left.
    pub fn next(&mut self) -> (r: Option<Entity>)
        requires
            old(self).inv(),
        ensures
            final(self).inv(),
            old(self).remaining().len() == 0 ==> r is None && final(self).remaining() == old(
                self,
            ).remaining(),
            old(self).remaining().len() > 0 ==> r == Some(old(self).remaining()[0])
                && final(self).remaining() == old(self).remaining().drop_first(),
    {
        if self.pos < self.items.len() {
            let e = self.items[self.pos];
            self.pos = self.pos + 1;
            assert(self.remaining() =~= old(self).remaining().drop_first());
            Some(e)
        } else {
            None
        }
    }

    /// How many handles are left, as exact lower and upper bounds.
    pub fn size_hint(&self) -> (r: (usize, Option<usize>))
        requires
            self.inv(),
        ensures
            r.0 == self.remaining().len(),
            r.1 == Some(r.0),
    {
        let len = self.items.len() - self.pos;
        (len, Some(len))
    }

    /// Hand out every remaining handle at once, in order.
    pub fn into_vec(self) -> (r: Vec<Entity>)
        requires
            self.inv(),
        ensures
            r@ == self.remaining(),
    {
        let mut it = self;
        let ghost all = it.remaining();
        let mut out: Vec<Entity> = Vec::new();
        while it.pos < it.items.len()
            invariant
                it.inv(),
                all == out@ + it.remaining(),
            decreases it.items@.len() - it.pos,
        {
            let ghost before = it.remaining();
            let e = it.next();
            out.push(e.unwrap());
            assert(all =~= out@ + it.remaining()) by {
                assert(before =~= seq![before[0]] + before.drop_first());
            }
        }
        assert(it.remaining() =~= Seq::<Entity>::empty());
        assert(out@ =~= all);
        out
    }
}

impl Entities {
    /// Materialize every reservation made since the last flush: give each
    /// brand-new reserved id a fresh slot, take the reserved ids out of the
    /// pending list, and set each materialized id's location to what `init`
    /// returns for it (`Location::unplaced()` to leave it unplaced). Returns
    /// the materialized ids in the order `init` saw them: brand-new ids
    /// ascending, then the reserved recycled ids.
    pub fn flush<F: FnMut(u32) -> Location>(&mut self, init: F) -> (r: Vec<u32>)
        requires
            old(self).wf(),
            forall|id: u32| call_requires(init, (id,)),
        ensures
            final(self).wf(),
            final(self).is_flushed(),
            final(self).pending_ids() == old(self).pending_ids().take(
                vstd::math::max(old(self).cursor(), 0),
            ),
            r@ == old(self).flushed_ids(),
            final(self).slots().len() == old(self).slots().len() + old(self).num_new(),
            forall|i: int|
                0 <= i < final(self).slots().len() ==> (#[trigger] final(self).slots()[i]).generation
                    == if i < old(self).slots().len() {
                    old(self).slots()[i].generation
                } else {
                    0
                },
            forall|i: int|
                0 <= i < final(self).slots().len() ==> if r@.contains(i as u32) {
                    call_ensures(init, (i as u32,), (#[trigger] final(self).slots()[i]).location)
                } else {
                    final(self).slots()[i] == old(self).slots()[i]
                },
    {
        let mut initializer = init;
        let free_cursor = self.free_cursor;
        let plen = self.pending.len();
        assert(free_cursor <= plen);
        let ghost old_len = old(self).meta@.len();
        let ghost new_part = Seq::new(
            old(self).num_new() as nat,
            |j: int| (old(self).slots().len() + j) as u32,
        );
        let mut flushed: Vec<u32> = Vec::new();
        let cutoff: usize;
        if free_cursor >= 0 {
            cutoff = free_cursor as usize;
        } else {
            let grow = (-free_cursor) as usize;
            let mut i: usize = 0;
            while i < grow
                invariant
                    0 <= i <= grow,
                    grow == old(self).num_new(),
                    old_len == old(self).meta@.len(),
                    old_len + grow <= ID_SPACE,
                    self.pending@ == old(self).pending@,
                    self.free_cursor == free_cursor,
                    self.meta@.len() == old_len + i,
                    forall|k: int|
                        0 <= k < old_len ==> #[trigger] self.meta@[k] == old(self).meta@[k],
                    forall|k: int|
                        old_len <= k < self.meta@.len() ==> (#[trigger] self.meta@[k]).generation
                            == 0 && call_ensures(init, (k as u32,), self.meta@[k].location),
                    flushed@ == new_part.take(i as int),
                    new_part == Seq::new(
                        old(self).num_new() as nat,
                        |j: int| (old(self).slots().len() + j) as u32,
                    ),
                    forall|id: u32| call_requires(init, (id,)),
                    initializer == init,
                decreases grow - i,
            {
                let id = (self.meta.len()) as u32;
                let location = initializer(id);
                self.meta.push(EntityMeta { generation: 0, location });
                flushed.push(id);
                assert(flushed@ =~= new_part.take(i + 1));
                i += 1;
            }
            self.free_cursor = 0;
            cutoff = 0;
        }
        assert(flushed@ =~= new_part);
        assert forall|k: int| 0 <= k < self.meta@.len() implies if flushed@.contains(k as u32) {
            call_ensures(init, (k as u32,), (#[trigger] self.meta@[k]).location)
        } else {
            self.meta@[k] == old(self).meta@[k]
        } by {
            if k >= old_len {
                assert(flushed@[k - old_len] == k as u32);
            } else if flushed@.contains(k as u32) {
                let w = choose|w: int| 0 <= w < flushed@.len() && flushed@[w] == k as u32;
                assert(flushed@[w] >= old_len);
            }
        }
        let mut j: usize = cutoff;
        while j < self.pending.len()
            invariant
                cutoff <= j <= self.pending@.len(),
                cutoff == vstd::math::max(old(self).cursor(), 0),
                self.pending@ == old(self).pending@,
                old(self).wf(),
                old_len == old(self).meta@.len(),
                self.meta@.len() == old_len + old(self).num_new(),
                forall|k: int|
                    0 <= k < self.meta@.len() ==> (#[trigger] self.meta@[k]).generation == if k
                        < old_len {
                        old(self).meta@[k].generation
                    } else {
                        0
                    },
                forall|k: int|
                    0 <= k < self.meta@.len() ==> if flushed@.contains(k as u32) {
                        call_ensures(init, (k as u32,), (#[trigger] self.meta@[k]).location)
                    } else {
                        self.meta@[k] == old(self).meta@[k]
                    },
                flushed@ == new_part + old(self).pending@.subrange(cutoff as int, j as int),
                new_part == Seq::new(
                    old(self).num_new() as nat,
                    |j: int| (old(self).slots().len() + j) as u32,
                ),
                forall|id: u32| call_requires(init, (id,)),
                initializer == init,
            decreases self.pending@.len() - j,
        {
            let id = self.pending[j];
            let location = initializer(id);
            let generation = self.meta[id as usize].generation;
            self.meta.set(id as usize, EntityMeta { generation, location });
            let ghost before = flushed@;
            flushed.push(id);
            assert forall|k: int| 0 <= k < self.meta@.len() implies if flushed@.contains(k as u32) {
                call_ensures(init, (k as u32,), (#[trigger] self.meta@[k]).location)
            } else {
                self.meta@[k] == old(self).meta@[k]
            } by {
                if k == id as int {
                    assert(flushed@[flushed@.len() - 1] == id);
                } else if before.contains(k as u32) {
                    let w = choose|w: int| 0 <= w < before.len() && before[w] == k as u32;
                    assert(flushed@[w] == k as u32);
                } else {
                    assert(!flushed@.contains(k as u32)) by {
                        if flushed@.contains(k as u32) {
                            let w = choose|w: int| 0 <= w < flushed@.len() && flushed@[w] == k as u32;
                            assert(w < before.len());
                            assert(before[w] == k as u32);
                        }
                    }
                }
            }
            assert(flushed@ =~= new_part + old(self).pending@.subrange(cutoff as int, j + 1));
            j += 1;
        }
        self.pending.truncate(cutoff);
        self.free_cursor = cutoff as i64;
        assert(old(self).pending@.skip(cutoff as int) =~= old(self).pending@.subrange(
            cutoff as int,
            old(self).pending@.len() as int,
        ));
        assert(forall|i: int|
            0 <= i < self.pending@.len() ==> #[trigger] self.pending@[i] == old(self).pending@[i]);
        assert(self.pending@ =~= old(self).pending@.take(cutoff as int));
        flushed
    }

    /// Access the location of a live entity for writing; `NoSuchEntity`,
    /// with nothing changed, when `entity` is not live.
    pub fn get_mut(&mut self, entity: Entity) -> (r: Result<&mut Location, NoSuchEntity>)
        requires
            old(self).wf(),
        ensures
            r is Ok <==> old(self).is_live(entity),
            match r {
                Ok(loc) => {
                    &&& *loc == old(self).slots()[entity.id as int].location
                    &&& final(self).slots() == old(self).slots().update(
                        entity.id as int,
                        EntityMeta { generation: entity.generation, location: *final(loc) },
                    )
                    &&& final(self).pending_ids() == old(self).pending_ids()
                    &&& final(self).cursor() == old(self).cursor()
                },
                Err(e) => {
                    &&& e == NoSuchEntity
                    &&& final(self).slots() == old(self).slots()
                    &&& final(self).pending_ids() == old(self).pending_ids()
                    &&& final(self).cursor() == old(self).cursor()
                },
            },
    {
        if (entity.id as usize) < self.meta.len() && self.meta[entity.id as usize].generation
            == entity.generation {
            let meta = &mut self.meta[entity.id as usize];
            Ok(&mut meta.location)
        } else {
            Err(NoSuchEntity)
        }
    }

    /// Make room in the slot table so that `additional` more calls of
    /// `allocate` need no reallocation, counting the ids already recycled.
    /// Changes no slot and no id.
    pub fn reserve(&mut self, additional: u32)
        requires
            old(self).wf(),
            old(self).is_flushed(),
        ensures
            final(self).slots() == old(self).slots(),
            final(self).pending_ids() == old(self).pending_ids(),
            final(self).cursor() == old(self).cursor(),
            final(self).wf(),
            final(self).is_flushed(),
    {
        let freelist_size = self.free_cursor;
        let shortfall = additional as i64 - freelist_size;
        if shortfall > 0 {
            self.meta.reserve(shortfall as usize);
        }
    }
}

impl Default for Entities {
    fn default() -> (r: Self)
        ensures
            r.wf(),
            r.is_flushed(),
            r.slots().len() == 0,
            r.pending_ids().len() == 0,
    {
        Entities::new()
    }
}

} // verus!
