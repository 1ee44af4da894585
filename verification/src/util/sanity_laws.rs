//! What a sanity trace finds and what it lets pass.

use crate::plan::immix::Pause;
use crate::plan::lxr::global::Lxr;
use crate::util::address::{Block, ObjectReference};
use crate::util::sanity_checker;
use crate::util::sanity_checker::{
    ObjectFacts, RootKind, SanityError, SanityGCProcessEdges, SanityPacket, SanityState,
};
use crate::vm::heap::Heap;
use vstd::prelude::*;

verus! {

/// Root slots are traced as roots of their kind, all of them.
pub proof fn roots_are_traced(roots: (Vec<usize>, RootKind), p: SanityPacket)
    requires
        sanity_checker::packet_for_roots(roots, p),
    ensures
        p matches SanityPacket::ProcessEdges(w) && {
            &&& w.slots@ == roots.0@
            &&& w.roots
            &&& w.root_kind == Some(roots.1)
            &&& w.edge is None
            &&& w.nodes@.len() == 0
        },
{
}

/// An epoch follows the one before it, and the first follows the last.
pub proof fn epochs_follow_each_other(state: u8)
    ensures
        1 <= state < 15 ==> sanity_checker::next_mark_state(state) == state + 1,
        !(1 <= state < 15) ==> sanity_checker::next_mark_state(state) == 1,
{
}

/// Tracing an object finds everything that can be wrong with it, and says what
/// comes first: a logged slot; then, where the object was not marked yet, that it
/// is no object, is not mapped, has no strong reference and is no candidate, has
/// more strong references than references, was reclaimed, has no count, was moved,
/// lies in a released block, is traced outside a collection, or was left unmarked
/// by a full trace; and last a missing valid-object bit.
///
/// An object that nothing is wrong with is scanned next if it was not marked
/// before. Whatever is found, every record of the object counts the reference,
/// and nothing is marked but the object, and only past a slot that is not logged.
pub proof fn trace_finds_what_is_wrong(
    w: (SanityGCProcessEdges, SanityGCProcessEdges),
    lxr: (Lxr, Lxr),
    state: (SanityState, SanityState),
    edge: usize,
    facts: ObjectFacts,
    o: ObjectReference,
    error: Option<SanityError>,
)
    requires
        sanity_checker::traced(
            w.0,
            w.1,
            lxr.0,
            lxr.1,
            state.0,
            state.1,
            edge,
            facts,
            o,
            error,
        ),
    ensures
        ({
            let g = (o.addr / 16) as usize;
            let t = lxr.0.tables;
            let fresh = state.0.mark_bits@[g] != state.0.mark_state;
            let p0 = !(facts.edge_mapped && t.field_unlog@[edge] == 0);
            let p1 = p0 && (fresh ==> facts.is_sane);
            let p2 = p1 && (fresh ==> facts.is_mapped);
            let p3 = p2 && (fresh ==> t.strong_rc@[g] > 0 || t.candidates_status@[g] != 0);
            let p4 = p3 && (fresh ==> t.strong_rc@[g] <= t.rc@[g]);
            let p5 = p4 && (fresh ==> facts.first_word != 0xdead);
            let p6 = p5 && (fresh ==> t.rc@[g] > 0);
            let p7 = p6 && (fresh ==> !facts.is_forwarded);
            let p8 = p7 && (fresh ==> !(facts.in_immix_space && facts.block_unallocated));
            let p9 = p8 && (fresh ==> lxr.0.current_pause is Some);
            let p10 = p9 && (fresh && (lxr.0.current_pause == Some(Pause::Full)
                || lxr.0.current_pause == Some(Pause::FinalMark)) ==> facts.is_marked);
            let p11 = p10 && facts.vo_bit != Some(false);
            &&& error == Some(SanityError::Logged(o)) <==> !p0
            &&& error == Some(SanityError::Insane(o)) <==> p0 && !p1
            &&& error == Some(SanityError::Unmapped(o)) <==> p1 && !p2
            &&& error == Some(SanityError::NoStrongReference(o)) <==> p2 && !p3
            &&& error == Some(SanityError::StrongExceedsCount(o)) <==> p3 && !p4
            &&& error == Some(SanityError::Killed(o)) <==> p4 && !p5
            &&& error == Some(SanityError::ZeroCount(o)) <==> p5 && !p6
            &&& error == Some(SanityError::Forwarded(o)) <==> p6 && !p7
            &&& error == Some(SanityError::BlockReleased(o)) <==> p7 && !p8
            &&& error == Some(SanityError::NoPause(o)) <==> p8 && !p9
            &&& error == Some(SanityError::NotMarked(o)) <==> p9 && !p10
            &&& error == Some(SanityError::NoVoBit(o)) <==> p10 && !p11
            &&& error is None <==> p11
            &&& fresh && p10 ==> w.1.nodes@ == w.0.nodes@.push(o)
            &&& !(fresh && p10) ==> w.1.nodes@ == w.0.nodes@
            &&& forall|k: usize| #[trigger]
                state.1.mark_bits@[k] == (if k == g && p0 {
                    state.0.mark_state
                } else {
                    state.0.mark_bits@[k]
                })
            &&& state.1.mark_state == state.0.mark_state
            &&& state.1.live_size_ix == state.0.live_size_ix
            &&& state.1.live_size_los == state.0.live_size_los
            &&& w.1.slots == w.0.slots && w.1.roots == w.0.roots && w.1.root_kind
                == w.0.root_kind && w.1.edge == w.0.edge
            &&& lxr.1.tables == lxr.0.tables
            &&& lxr.1.rc_sanity_objects@.len() == lxr.0.rc_sanity_objects@.len()
            &&& forall|i: int|
                #![trigger lxr.1.rc_sanity_objects@[i]]
                0 <= i < lxr.0.rc_sanity_objects@.len() ==> {
                    let r = lxr.0.rc_sanity_objects@[i];
                    &&& lxr.1.rc_sanity_objects@[i].0 == r.0
                    &&& lxr.1.rc_sanity_objects@[i].1 == r.1 + (if r.0 == o && r.1 < 255 {
                        1int
                    } else {
                        0
                    })
                }
        }),
{
}

/// The addresses of the objects that a walk from `a` to `limit` comes to: an
/// object is where there is a count, unless a line starts there that an earlier
/// object covers. Behind an object the walk goes on where it ends, elsewhere
/// sixteen bytes on.
pub open spec fn walk(heap: Heap, lxr: Lxr, limit: int, a: int) -> Seq<usize>
    decreases if a < limit { limit - a } else { 0 },
{
    let t = lxr.tables;
    if a < 0 || a >= limit || a > usize::MAX {
        Seq::empty()
    } else if t.rc@[(a / 16) as usize] > 0 && !(a % 256 == 0 && t.rc_straddle_lines@[(a
        / 256) as usize] != 0) {
        let size = heap.info(ObjectReference { addr: a as usize }).size;
        seq![a as usize] + walk(
            heap,
            lxr,
            limit,
            if size > 0 {
                a + size
            } else {
                a + 16
            },
        )
    } else {
        walk(heap, lxr, limit, a + 16)
    }
}

/// Whether something refers strongly to the object at `a`, or it is a candidate.
pub open spec fn referred_to(lxr: Lxr, a: usize) -> bool {
    lxr.tables.strong_rc@[(a / 16) as usize] > 0 || lxr.tables.candidates_status@[(a
        / 16) as usize] != 0
}

/// Whether nothing is wrong with the object at `a` of a block that ends at
/// `limit`.
pub open spec fn well_placed(heap: Heap, lxr: Lxr, limit: int, a: usize) -> bool {
    referred_to(lxr, a) && a + heap.info(ObjectReference { addr: a }).size <= limit
}

/// Whether nothing is wrong with any object of the block.
pub open spec fn block_in_order(heap: Heap, lxr: Lxr, b: Block) -> bool {
    let w = walk(heap, lxr, b.start + 32768, b.start as int);
    forall|j: int| 0 <= j < w.len() ==> well_placed(heap, lxr, b.start + 32768, #[trigger] w[j])
}

/// Whether no more references than its count were found to the object of record
/// `i`. A count that is stuck says nothing.
pub open spec fn count_in_order(lxr: Lxr, i: int) -> bool {
    let r = lxr.rc_sanity_objects@[i];
    let n = lxr.tables.rc@[(r.0.addr / 16) as usize];
    n == 255 || r.1 <= n
}

/// Whether the large object has a count and is referred to.
pub open spec fn large_in_order(lxr: Lxr, o: ObjectReference) -> bool {
    lxr.tables.rc@[(o.addr / 16) as usize] > 0 && referred_to(lxr, o.addr)
}

/// The steps of the walk are those of the check.
proof fn walk_steps(heap: Heap, lxr: Lxr, limit: int, a: int)
    requires
        0 <= a < limit,
        a <= usize::MAX,
    ensures
        ({
            let w = walk(heap, lxr, limit, a);
            let o = ObjectReference { addr: a as usize };
            let rest = walk(heap, lxr, limit, a + sanity_checker::stride(heap, lxr, a as usize));
            &&& sanity_checker::object_starts_at(lxr, a as usize) ==> w == seq![a as usize] + rest
                && w[0] == a && w.len() == rest.len() + 1 && (forall|j: int|
                0 <= j < rest.len() ==> #[trigger] w[j + 1] == rest[j])
            &&& !sanity_checker::object_starts_at(lxr, a as usize) ==> w == rest
            &&& sanity_checker::placed_error(heap, lxr, limit, a as usize) is None <==> well_placed(
                heap,
                lxr,
                limit,
                a as usize,
            )
        }),
{
    assert((a / 16) as usize == (a as usize / 16) as usize);
    assert((a / 256) as usize == (a as usize / 256) as usize);
}

/// What a walk through a block finds: nothing if nothing is wrong with any object
/// that it comes to, and otherwise what is wrong with the first such object.
pub proof fn walk_finds_what_is_wrong(heap: Heap, lxr: Lxr, limit: int, a: int, k: int)
    requires
        0 <= a,
        limit <= usize::MAX,
    ensures
        ({
            let w = walk(heap, lxr, limit, a);
            let e = sanity_checker::block_error(heap, lxr, limit, a);
            &&& e is None <==> forall|j: int|
                0 <= j < w.len() ==> well_placed(heap, lxr, limit, #[trigger] w[j])
            &&& 0 <= k < w.len() && !well_placed(heap, lxr, limit, w[k]) && (forall|j: int|
                0 <= j < k ==> well_placed(heap, lxr, limit, #[trigger] w[j])) ==> {
                let o = ObjectReference { addr: w[k] };
                e == Some(
                    if referred_to(lxr, w[k]) {
                        SanityError::OverrunsBlock(o)
                    } else {
                        SanityError::NoStrongReference(o)
                    },
                )
            }
        }),
    decreases
            if a < limit {
                limit - a
            } else {
                0
            },
{
    if a < limit {
        walk_steps(heap, lxr, limit, a);
        let w = walk(heap, lxr, limit, a);
        let next = a + sanity_checker::stride(heap, lxr, a as usize);
        let rest = walk(heap, lxr, limit, next);
        let starts = sanity_checker::object_starts_at(lxr, a as usize);
        walk_finds_what_is_wrong(
            heap,
            lxr,
            limit,
            next,
            if starts {
                k - 1
            } else {
                k
            },
        );
        if starts && well_placed(heap, lxr, limit, a as usize) {
            if forall|j: int| 0 <= j < rest.len() ==> well_placed(
                heap,
                lxr,
                limit,
                #[trigger] rest[j],
            ) {
                assert forall|j: int| 0 <= j < w.len() implies well_placed(
                    heap,
                    lxr,
                    limit,
                    #[trigger] w[j],
                ) by {
                    if j > 0 {
                        assert(w[(j - 1) + 1] == rest[j - 1]);
                    }
                }
            } else {
                let j = choose|j: int|
                    0 <= j < rest.len() && !well_placed(heap, lxr, limit, #[trigger] rest[j]);
                assert(w[j + 1] == rest[j]);
            }
            if 0 <= k < w.len() && !well_placed(heap, lxr, limit, w[k]) && (forall|j: int|
                0 <= j < k ==> well_placed(heap, lxr, limit, #[trigger] w[j])) {
                assert(w[(k - 1) + 1] == rest[k - 1]);
                assert forall|j: int| 0 <= j < k - 1 implies well_placed(
                    heap,
                    lxr,
                    limit,
                    #[trigger] rest[j],
                ) by {
                    assert(w[j + 1] == rest[j]);
                }
            }
        }
        if starts && !well_placed(heap, lxr, limit, a as usize) {
            assert(!well_placed(heap, lxr, limit, w[0]));
        }
    }
}

/// Whether a block can be walked: it is a block, and the heap knows every object
/// that the walk comes to, up to the first that something is wrong with.
pub proof fn known_objects_can_be_walked(heap: Heap, lxr: Lxr, b: Block)
    ensures
        sanity_checker::walkable(heap, lxr, b) <==> {
            let limit = b.start + 32768;
            let w = walk(heap, lxr, limit, b.start as int);
            &&& b.start % 32768 == 0
            &&& b.start <= usize::MAX - 32768
            &&& forall|k: int|
                #![trigger w[k]]
                0 <= k < w.len() && (forall|j: int|
                    0 <= j < k ==> well_placed(heap, lxr, limit, #[trigger] w[j]))
                    ==> heap.contains(ObjectReference { addr: w[k] }) && heap.info(ObjectReference { addr: w[k] }).size > 0
        },
{
    if b.start <= usize::MAX - 32768 {
        walkable_from_is_known(heap, lxr, b.start + 32768, b.start as int);
    }
}

/// Whether the heap knows every object of the walk up to the first that something
/// is wrong with.
spec fn known_from(heap: Heap, lxr: Lxr, limit: int, a: int) -> bool {
    let w = walk(heap, lxr, limit, a);
    forall|k: int|
        #![trigger w[k]]
        0 <= k < w.len() && (forall|j: int|
            0 <= j < k ==> well_placed(heap, lxr, limit, #[trigger] w[j]))
            ==> heap.contains(ObjectReference { addr: w[k] }) && heap.info(ObjectReference { addr: w[k] }).size > 0
}

/// A walk is possible where its objects are known.
proof fn walkable_from_is_known(heap: Heap, lxr: Lxr, limit: int, a: int)
    requires
        0 <= a,
        limit <= usize::MAX,
    ensures
        sanity_checker::walkable_from(heap, lxr, limit, a) <==> known_from(heap, lxr, limit, a),
    decreases
            if a < limit {
                limit - a
            } else {
                0
            },
{
    if a < limit {
        walk_steps(heap, lxr, limit, a);
        let w = walk(heap, lxr, limit, a);
        let next = a + sanity_checker::stride(heap, lxr, a as usize);
        let rest = walk(heap, lxr, limit, next);
        let starts = sanity_checker::object_starts_at(lxr, a as usize);
        walkable_from_is_known(heap, lxr, limit, next);
        if starts {
            if sanity_checker::walkable_from(heap, lxr, limit, a) {
                assert forall|k: int|
                    #![trigger w[k]]
                    0 <= k < w.len() && (forall|j: int|
                        0 <= j < k ==> well_placed(heap, lxr, limit, #[trigger] w[j])) implies
                    heap.contains(ObjectReference { addr: w[k] }) && heap.info(ObjectReference { addr: w[k] }).size > 0 by {
                    if k > 0 {
                        assert(well_placed(heap, lxr, limit, w[0]));
                        assert(w[(k - 1) + 1] == rest[k - 1]);
                        assert forall|j: int| 0 <= j < k - 1 implies well_placed(
                            heap,
                            lxr,
                            limit,
                            #[trigger] rest[j],
                        ) by {
                            assert(w[j + 1] == rest[j]);
                        }
                    }
                }
            }
            if known_from(heap, lxr, limit, a) {
                assert(heap.contains(ObjectReference { addr: w[0] }) && heap.info(ObjectReference { addr: w[0] }).size > 0);
                if well_placed(heap, lxr, limit, a as usize) {
                    assert forall|k: int|
                        #![trigger rest[k]]
                        0 <= k < rest.len() && (forall|j: int|
                            0 <= j < k ==> well_placed(heap, lxr, limit, #[trigger] rest[j]))
                        implies heap.contains(ObjectReference { addr: rest[k] })
                        && heap.info(ObjectReference { addr: rest[k] }).size > 0 by {
                        assert(w[k + 1] == rest[k]);
                        assert forall|j: int| 0 <= j < k + 1 implies well_placed(
                            heap,
                            lxr,
                            limit,
                            #[trigger] w[j],
                        ) by {
                            if j > 0 {
                                assert(w[(j - 1) + 1] == rest[j - 1]);
                            }
                        }
                    }
                }
            }
        }
    }
}

/// Counts are checked from place `i` on, the first that is too low is found.
proof fn counts_from(lxr: Lxr, i: int, k: int)
    requires
        0 <= i,
    ensures
        ({
            let n = lxr.rc_sanity_objects@.len();
            let e = sanity_checker::count_error(lxr.tables.rc@, lxr.rc_sanity_objects@, i);
            &&& e is None <==> forall|j: int| i <= j < n ==> #[trigger] count_in_order(lxr, j)
            &&& i <= k < n && !count_in_order(lxr, k) && (forall|j: int|
                i <= j < k ==> #[trigger] count_in_order(lxr, j)) ==> e == Some(
                SanityError::CountTooLow(lxr.rc_sanity_objects@[k].0),
            )
        }),
    decreases lxr.rc_sanity_objects@.len() - i,
{
    if i < lxr.rc_sanity_objects@.len() {
        counts_from(lxr, i + 1, k);
        assert(count_in_order(lxr, i) <==> {
            let n = lxr.tables.rc@[lxr.rc_sanity_objects@[i].0.granule()];
            !(n != 255 && n < lxr.rc_sanity_objects@[i].1)
        });
    }
}

/// Blocks are checked from place `i` on, the first that is not in order is found.
proof fn blocks_from(heap: Heap, lxr: Lxr, blocks: Seq<Block>, i: int, k: int)
    requires
        0 <= i,
        forall|j: int|
            #![trigger blocks[j]]
            0 <= j < blocks.len() ==> blocks[j].start <= usize::MAX - 32768,
    ensures
        ({
            let e = sanity_checker::blocks_error(heap, lxr, blocks, i);
            &&& e is None <==> forall|j: int|
                i <= j < blocks.len() ==> block_in_order(heap, lxr, #[trigger] blocks[j])
            &&& i <= k < blocks.len() && !block_in_order(heap, lxr, blocks[k]) && (forall|j: int|
                i <= j < k ==> block_in_order(heap, lxr, #[trigger] blocks[j])) ==> e
                == sanity_checker::block_error(
                heap,
                lxr,
                blocks[k].start + 32768,
                blocks[k].start as int,
            ) && e is Some
        }),
    decreases blocks.len() - i,
{
    if i < blocks.len() {
        blocks_from(heap, lxr, blocks, i + 1, k);
        walk_finds_what_is_wrong(heap, lxr, blocks[i].start + 32768, blocks[i].start as int, 0);
        assert(block_in_order(heap, lxr, blocks[i]) <==> sanity_checker::block_error(
            heap,
            lxr,
            blocks[i].start + 32768,
            blocks[i].start as int,
        ) is None);
    }
}

/// Large objects are checked from place `i` on, the first that is not in order is
/// found.
proof fn large_from(lxr: Lxr, large: Seq<ObjectReference>, i: int, k: int)
    requires
        0 <= i,
    ensures
        ({
            let e = sanity_checker::large_error(lxr, large, i);
            &&& e is None <==> forall|j: int|
                i <= j < large.len() ==> large_in_order(lxr, #[trigger] large[j])
            &&& i <= k < large.len() && !large_in_order(lxr, large[k]) && (forall|j: int|
                i <= j < k ==> large_in_order(lxr, #[trigger] large[j])) ==> e == Some(
                if lxr.tables.rc@[(large[k].addr / 16) as usize] == 0 {
                    SanityError::ZeroCount(large[k])
                } else {
                    SanityError::NoStrongReference(large[k])
                },
            )
        }),
    decreases large.len() - i,
{
    if i < large.len() {
        large_from(lxr, large, i + 1, k);
    }
}

/// The check after the trace passes exactly if no count is too low, nothing is
/// wrong with any object of any block, and every large object has a count and is
/// referred to.
pub proof fn release_passes_what_is_in_order(
    heap: Heap,
    lxr: Lxr,
    blocks: Seq<Block>,
    large: Seq<ObjectReference>,
)
    requires
        forall|j: int|
            #![trigger blocks[j]]
            0 <= j < blocks.len() ==> blocks[j].start <= usize::MAX - 32768,
    ensures
        sanity_checker::release_error(heap, lxr, blocks, large) is None <==> {
            &&& forall|j: int|
                0 <= j < lxr.rc_sanity_objects@.len() ==> #[trigger] count_in_order(lxr, j)
            &&& forall|j: int|
                0 <= j < blocks.len() ==> block_in_order(heap, lxr, #[trigger] blocks[j])
            &&& forall|j: int| 0 <= j < large.len() ==> large_in_order(lxr, #[trigger] large[j])
        },
        sanity_checker::walk_error(heap, lxr, blocks) is None <==> {
            &&& forall|j: int|
                0 <= j < lxr.rc_sanity_objects@.len() ==> #[trigger] count_in_order(lxr, j)
            &&& forall|j: int|
                0 <= j < blocks.len() ==> block_in_order(heap, lxr, #[trigger] blocks[j])
        },
        sanity_checker::release_error(heap, lxr, blocks, large) is None ==> forall|j: int|
            #![trigger blocks[j]]
            0 <= j < blocks.len() ==> sanity_checker::block_error(
                heap,
                lxr,
                blocks[j].start + 32768,
                blocks[j].start as int,
            ) is None,
{
    counts_from(lxr, 0, 0);
    blocks_from(heap, lxr, blocks, 0, 0);
    large_from(lxr, large, 0, 0);
    assert forall|j: int|
        #![trigger blocks[j]]
        0 <= j < blocks.len() && block_in_order(heap, lxr, blocks[j]) implies
        sanity_checker::block_error(
        heap,
        lxr,
        blocks[j].start + 32768,
        blocks[j].start as int,
    ) is None by {
        walk_finds_what_is_wrong(heap, lxr, blocks[j].start + 32768, blocks[j].start as int, 0);
    }
}

/// The check after the trace reports the first count that is too low.
pub proof fn release_reports_low_count(
    heap: Heap,
    lxr: Lxr,
    blocks: Seq<Block>,
    large: Seq<ObjectReference>,
    k: int,
)
    requires
        0 <= k < lxr.rc_sanity_objects@.len(),
        !count_in_order(lxr, k),
        forall|j: int| 0 <= j < k ==> #[trigger] count_in_order(lxr, j),
    ensures
        sanity_checker::release_error(heap, lxr, blocks, large) == Some(
            SanityError::CountTooLow(lxr.rc_sanity_objects@[k].0),
        ),
{
    counts_from(lxr, 0, k);
}

/// Where the counts are in order, the check reports the first object of the first
/// block in which something is wrong: it reaches beyond the block, or nothing
/// refers to it.
pub proof fn release_reports_misplaced_object(
    heap: Heap,
    lxr: Lxr,
    blocks: Seq<Block>,
    large: Seq<ObjectReference>,
    k: int,
    m: int,
)
    requires
        forall|j: int|
            #![trigger blocks[j]]
            0 <= j < blocks.len() ==> blocks[j].start <= usize::MAX - 32768,
        forall|j: int|
            0 <= j < lxr.rc_sanity_objects@.len() ==> #[trigger] count_in_order(lxr, j),
        0 <= k < blocks.len(),
        forall|j: int| 0 <= j < k ==> block_in_order(heap, lxr, #[trigger] blocks[j]),
        ({
            let limit = blocks[k].start + 32768;
            let w = walk(heap, lxr, limit, blocks[k].start as int);
            &&& 0 <= m < w.len()
            &&& !well_placed(heap, lxr, limit, w[m])
            &&& forall|j: int| 0 <= j < m ==> well_placed(heap, lxr, limit, #[trigger] w[j])
        }),
    ensures
        ({
            let a = walk(heap, lxr, blocks[k].start + 32768, blocks[k].start as int)[m];
            let o = ObjectReference { addr: a };
            sanity_checker::release_error(heap, lxr, blocks, large) == Some(
                if referred_to(lxr, a) {
                    SanityError::OverrunsBlock(o)
                } else {
                    SanityError::NoStrongReference(o)
                },
            )
        }),
{
    counts_from(lxr, 0, 0);
    blocks_from(heap, lxr, blocks, 0, k);
    walk_finds_what_is_wrong(heap, lxr, blocks[k].start + 32768, blocks[k].start as int, m);
    assert(!block_in_order(heap, lxr, blocks[k]));
}

/// Where the counts and the blocks are in order, the check reports the first
/// large object that has no count or that nothing refers to.
pub proof fn release_reports_large_object(
    heap: Heap,
    lxr: Lxr,
    blocks: Seq<Block>,
    large: Seq<ObjectReference>,
    k: int,
)
    requires
        forall|j: int|
            #![trigger blocks[j]]
            0 <= j < blocks.len() ==> blocks[j].start <= usize::MAX - 32768,
        forall|j: int|
            0 <= j < lxr.rc_sanity_objects@.len() ==> #[trigger] count_in_order(lxr, j),
        forall|j: int| 0 <= j < blocks.len() ==> block_in_order(heap, lxr, #[trigger] blocks[j]),
        0 <= k < large.len(),
        !large_in_order(lxr, large[k]),
        forall|j: int| 0 <= j < k ==> large_in_order(lxr, #[trigger] large[j]),
    ensures
        sanity_checker::release_error(heap, lxr, blocks, large) == Some(
            if lxr.tables.rc@[(large[k].addr / 16) as usize] == 0 {
                SanityError::ZeroCount(large[k])
            } else {
                SanityError::NoStrongReference(large[k])
            },
        ),
{
    counts_from(lxr, 0, 0);
    blocks_from(heap, lxr, blocks, 0, 0);
    large_from(lxr, large, 0, k);
}

} // verus!
