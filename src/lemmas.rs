use vstd::prelude::*;

use crate::entities::Entities;
use crate::entity::ID_SPACE;

verus! {

/// Reservations never overlap: two distinct cursor positions among the next
/// `count` to be reserved carry distinct ids, as long as the recycled ids are
/// distinct. Since every reservation call takes the positions just below the
/// cursor and moves the cursor past them, calls made in any interleaving
/// receive disjoint ids.
pub proof fn lemma_reserved_ids_distinct(s: Entities, count: int, p: int, q: int)
    requires
        s.wf(),
        s.freelist_distinct(),
        s.can_reserve(count),
        s.cursor() - count <= p < q < s.cursor(),
    ensures
        s.reserved_at(p).id != s.reserved_at(q).id,
{
    let len = s.slots().len() as int;
    if p >= 0 {
        assert(s.pending_ids()[p] != s.pending_ids()[q]);
    } else if q >= 0 {
        assert(s.pending_ids()[q] < len);
        assert(len - p - 1 < ID_SPACE);
    } else {
        assert(len - p - 1 < ID_SPACE);
    }
}

/// The ids of the next `count` reservations are exactly the freelist entries
/// they consume, followed by the brand-new ids counting up from the end of
/// the slot table (past those already reserved).
pub proof fn lemma_reserved_ids_exact(s: Entities, count: int)
    requires
        s.wf(),
        count >= 0,
        s.can_reserve(count),
    ensures
        s.reserved_ids(s.cursor(), count) == s.pending_ids().subrange(
            vstd::math::max(s.cursor() - count, 0),
            vstd::math::max(s.cursor(), 0),
        ).to_set() + Set::new(
            |id: u32|
                s.slots().len() - vstd::math::min(s.cursor(), 0) <= id < s.slots().len()
                    - vstd::math::min(s.cursor() - count, 0),
        ),
{
    let c = s.cursor();
    let len = s.slots().len() as int;
    let fs = vstd::math::max(c - count, 0);
    let fe = vstd::math::max(c, 0);
    let free = s.pending_ids().subrange(fs, fe);
    let fresh = Set::new(
        |id: u32| len - vstd::math::min(c, 0) <= id < len - vstd::math::min(c - count, 0),
    );
    assert forall|id: u32| s.reserved_ids(c, count).contains(id) implies (free.to_set()
        + fresh).contains(id) by {
        let p = choose|p: int| c - count <= p < c && #[trigger] s.reserved_at(p).id == id;
        if p >= 0 {
            assert(free[p - fs] == id);
            assert(free.to_set().contains(id));
        } else {
            assert(len - p - 1 < ID_SPACE);
            assert(fresh.contains(id));
        }
    }
    assert forall|id: u32| (free.to_set() + fresh).contains(id) implies s.reserved_ids(
        c,
        count,
    ).contains(id) by {
        if free.to_set().contains(id) {
            let k = choose|k: int| 0 <= k < free.len() && free[k] == id;
            assert(s.reserved_at(fs + k).id == id);
        } else {
            let p = len - id - 1;
            assert(s.reserved_at(p).id == id);
        }
    }
    assert(s.reserved_ids(c, count) =~= free.to_set() + fresh);
}

/// Two reservations made one after the other, `a` ids and then `b` ids, take
/// disjoint sets of ids whose union is what one reservation of `a + b` would
/// take.
pub proof fn lemma_consecutive_reservations(s: Entities, a: int, b: int)
    requires
        s.wf(),
        s.freelist_distinct(),
        a >= 0,
        b >= 0,
        s.can_reserve(a + b),
    ensures
        s.reserved_ids(s.cursor(), a).disjoint(s.reserved_ids(s.cursor() - a, b)),
        s.reserved_ids(s.cursor(), a) + s.reserved_ids(s.cursor() - a, b) == s.reserved_ids(
            s.cursor(),
            a + b,
        ),
{
    let c = s.cursor();
    assert forall|id: u32| s.reserved_ids(c, a).contains(id) implies !s.reserved_ids(
        c - a,
        b,
    ).contains(id) by {
        let q = choose|q: int| c - a <= q < c && #[trigger] s.reserved_at(q).id == id;
        if s.reserved_ids(c - a, b).contains(id) {
            let p = choose|p: int| c - a - b <= p < c - a && #[trigger] s.reserved_at(p).id == id;
            lemma_reserved_ids_distinct(s, a + b, p, q);
        }
    }
    assert(s.reserved_ids(c, a) + s.reserved_ids(c - a, b) =~= s.reserved_ids(c, a + b));
}

/// A batch reservation hands out exactly the ids of the cursor positions it
/// consumes, each position once.
pub proof fn lemma_batch_ids(s: Entities, end: int, count: nat)
    ensures
        forall|j: int|
            0 <= j < count ==> end - count <= #[trigger] Entities::batch_position(end, count as int, j)
                < end,
        forall|i: int, j: int|
            0 <= i < j < count ==> Entities::batch_position(end, count as int, i)
                != Entities::batch_position(end, count as int, j),
        s.batch(end, count).map_values(|e: crate::entity::Entity| e.id).to_set() == s.reserved_ids(
            end,
            count as int,
        ),
{
    let n = count as int;
    let fs = vstd::math::max(end - n, 0);
    let f = vstd::math::max(end, 0) - fs;
    let ids = s.batch(end, count).map_values(|e: crate::entity::Entity| e.id);
    assert forall|id: u32| ids.to_set().contains(id) implies s.reserved_ids(end, n).contains(id) by {
        let j = choose|j: int| 0 <= j < ids.len() && ids[j] == id;
        assert(s.reserved_at(Entities::batch_position(end, n, j)).id == id);
    }
    assert forall|id: u32| s.reserved_ids(end, n).contains(id) implies ids.to_set().contains(id) by {
        let p = choose|p: int| end - n <= p < end && #[trigger] s.reserved_at(p).id == id;
        let j = if p >= fs {
            p - fs
        } else {
            f + (vstd::math::min(end, 0) - 1 - p)
        };
        assert(Entities::batch_position(end, n, j) == p);
        assert(ids[j] == id);
    }
    assert(ids.to_set() =~= s.reserved_ids(end, n));
}

/// `flush` materializes each outstanding reservation exactly once: its list
/// has one entry per cursor position between the cursor and the end of the
/// pending list, holds every id reserved there, and repeats none, as long as
/// the reserved recycled ids are distinct.
pub proof fn lemma_flush_visits_each_once(s: Entities)
    requires
        s.wf(),
        forall|i: int, j: int|
            vstd::math::max(s.cursor(), 0) <= i < j < s.pending_ids().len() ==> s.pending_ids()[i]
                != s.pending_ids()[j],
    ensures
        s.flushed_ids().len() == s.pending_ids().len() - s.cursor(),
        s.flushed_ids().no_duplicates(),
        forall|p: int|
            s.cursor() <= p < s.pending_ids().len() ==> s.flushed_ids().contains(
                #[trigger] s.reserved_at(p).id,
            ),
{
    let c = s.cursor();
    let len = s.slots().len() as int;
    let k = s.num_new();
    let cut = vstd::math::max(c, 0);
    let ids = s.flushed_ids();
    assert forall|i: int, j: int| 0 <= i < j < ids.len() implies ids[i] != ids[j] by {
        if j < k {
            assert(len + j < ID_SPACE);
        } else if i < k {
            assert(s.pending_ids()[cut + j - k] < len);
        } else {
            assert(s.pending_ids()[cut + i - k] != s.pending_ids()[cut + j - k]);
        }
    }
    assert forall|p: int| c <= p < s.pending_ids().len() implies ids.contains(
        #[trigger] s.reserved_at(p).id,
    ) by {
        if p >= 0 {
            assert(ids[k + p - cut] == s.reserved_at(p).id);
        } else {
            assert(ids[-p - 1] == s.reserved_at(p).id);
        }
    }
}

} // verus!
