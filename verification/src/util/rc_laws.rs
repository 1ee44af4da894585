//! What reference counts and straddled lines come to, in terms of addresses.

use crate::util::address;
use crate::util::address::{Block, ObjectReference};
use crate::util::rc;
use crate::util::rc::{Counts, RcTables};
use vstd::prelude::*;

verus! {

/// Granules, lines and blocks cut the address space into pieces of 16, 256 and
/// 32768 bytes: the piece of an address begins at or before it, and ends behind
/// it.
pub proof fn pieces_hold_their_addresses(a: usize)
    ensures
        address::granule_of(a) * 16 <= a < address::granule_of(a) * 16 + 16,
        (ObjectReference { addr: a }).granule() * 16 <= a < (ObjectReference { addr: a }).granule()
            * 16 + 16,
        address::line_of(a) * 256 <= a < address::line_of(a) * 256 + 256,
        address::block_start_of(a) % 32768 == 0,
        address::block_start_of(a) <= a < address::block_start_of(a) + 32768,
{
}

/// A well-formed block begins at a multiple of its size and ends inside the
/// address space.
pub proof fn blocks_are_aligned(b: Block)
    ensures
        b.wf() <==> b.start % 32768 == 0 && b.start + 32768 <= usize::MAX,
{
}

/// Whether line `l` lies wholly inside an object of `size` bytes at `a`, and
/// behind the line in which the object begins.
pub open spec fn inside_object(a: usize, size: usize, l: int) -> bool {
    a < l * 256 && (l + 1) * 256 <= a + size
}

/// A line is straddled exactly if it lies wholly inside the object, behind the
/// line in which the object begins.
pub proof fn straddled_lines_lie_inside(a: usize, size: usize, l: usize)
    ensures
        rc::straddles(a, size, l) <==> inside_object(a, size, l as int),
{
}

/// Filling the lines of an object writes to exactly the lines that lie inside it,
/// and to the count of the first granule of each.
pub proof fn filled_lines_lie_inside(
    lines: Map<usize, u8>,
    counts: Map<usize, u8>,
    a: usize,
    size: usize,
    v: u8,
)
    ensures
        forall|l: usize| #[trigger]
            rc::fill_lines(lines, a, size, v)[l] == (if inside_object(a, size, l as int) {
                v
            } else {
                lines[l]
            }),
        forall|g: usize| #[trigger]
            rc::fill_line_granules(counts, a, size, v)[g] == (if g * 16 % 256 == 0
                && inside_object(a, size, g * 16 / 256) {
                v
            } else {
                counts[g]
            }),
{
    assert forall|g: usize| #[trigger]
        rc::fill_line_granules(counts, a, size, v)[g] == (if g * 16 % 256 == 0 && inside_object(
            a,
            size,
            g * 16 / 256,
        ) {
            v
        } else {
            counts[g]
        }) by {
        assert(g * 16 % 256 == 0 <==> g % 16 == 0);
        assert(g * 16 / 256 == g / 16);
    }
}

/// A promoted object leaves no line inside it, behind the one in which it begins,
/// without a mark and a count, and changes no other line, no other count, and no
/// unlog bit but that at its start.
pub proof fn promoted_object_covers_its_lines(
    old: RcTables,
    new: RcTables,
    o: ObjectReference,
    size: usize,
)
    requires
        rc::promoted(old, new, o, size),
        o.addr + size <= usize::MAX,
    ensures
        forall|l: usize| #[trigger]
            new.rc_straddle_lines@[l] == (if inside_object(o.addr, size, l as int) {
                1
            } else {
                old.rc_straddle_lines@[l]
            }),
        forall|g: usize| #[trigger]
            new.rc@[g] == (if g * 16 % 256 == 0 && inside_object(o.addr, size, g * 16 / 256) {
                1
            } else {
                old.rc@[g]
            }),
        forall|s: usize| #[trigger]
            new.field_unlog@[s] == (if s == o.addr {
                0
            } else {
                old.field_unlog@[s]
            }),
        new.overflow_rc == old.overflow_rc,
        new.strong_rc == old.strong_rc,
        new.obj_color == old.obj_color,
        new.candidates_status == old.candidates_status,
        new.sanity_dead_cycle_count == old.sanity_dead_cycle_count,
        new.inc_buffer_size == old.inc_buffer_size,
{
    filled_lines_lie_inside(old.rc_straddle_lines@, old.rc@, o.addr, size, 1);
}

/// A strong count goes up by one to fifteen and down by one to zero, and between
/// them one undoes the other.
pub proof fn strong_counts_step_by_one(n: u8)
    requires
        n <= 15,
    ensures
        n < 15 ==> rc::strong_inc(n) == n + 1,
        rc::strong_inc(15) == 15,
        n > 0 ==> rc::strong_dec(n) == n - 1,
        rc::strong_dec(0) == 0,
        n < 15 ==> rc::strong_dec(rc::strong_inc(n)) == n,
        n > 0 ==> rc::strong_inc(rc::strong_dec(n)) == n,
{
}

/// The count of a granule is what the table says and what exceeds it.
pub proof fn count_is_table_and_excess(c: Counts, g: usize)
    requires
        c.wf(),
    ensures
        c.count(g) == c.rc[g] + c.excess[g],
{
    assert(c.excess[g] != 0 ==> c.rc[g] == 255);
}

/// An increment raises and a decrement lowers table and excess together by one,
/// and neither touches another granule.
pub proof fn counts_step_by_one(c: Counts, g: usize, h: usize)
    requires
        c.wf(),
        c.rc[g] + c.excess[g] < 255 + u32::MAX,
    ensures
        c.inc(g).rc[g] + c.inc(g).excess[g] == c.rc[g] + c.excess[g] + 1,
        c.rc[g] > 0 ==> c.dec(g).rc[g] + c.dec(g).excess[g] == c.rc[g] + c.excess[g] - 1,
        c.rc[g] == 0 ==> c.dec(g) == c,
        h != g ==> c.inc(g).rc[h] == c.rc[h] && c.inc(g).excess[h] == c.excess[h],
        h != g ==> c.dec(g).rc[h] == c.rc[h] && c.dec(g).excess[h] == c.excess[h],
        c.inc(g).wf(),
        c.dec(g).wf(),
{
    assert(c.excess[g] != 0 ==> c.rc[g] == 255);
    assert forall|k: usize| c.inc(g).excess[k] != 0 implies c.inc(g).rc[k] == 255 by {
        assert(c.excess[k] != 0 ==> c.rc[k] == 255);
    }
    assert forall|k: usize| c.dec(g).excess[k] != 0 implies c.dec(g).rc[k] == 255 by {
        assert(c.excess[k] != 0 ==> c.rc[k] == 255);
    }
}

/// Only a saturated granule has an excess.
pub proof fn excess_means_saturated(c: Counts)
    ensures
        c.wf() <==> forall|g: usize| #[trigger] c.excess[g] == 0 || c.rc[g] == 255,
{
}

/// Every entry fits in the bits that its table has: four for a strong count, two
/// for a colour and for a candidate's tag, one for an unlog bit.
pub proof fn entries_fit_their_bits(t: RcTables)
    ensures
        t.wf() <==> forall|g: usize|
            #![trigger t.strong_rc@[g]]
            #![trigger t.obj_color@[g]]
            #![trigger t.candidates_status@[g]]
            #![trigger t.field_unlog@[g]]
            t.strong_rc@[g] <= 15 && t.obj_color@[g] <= 3 && t.candidates_status@[g] <= 3
                && t.field_unlog@[g] <= 1,
        t.counts().rc == t.rc@,
        t.counts().excess == t.overflow_rc@,
{
    if t.wf() {
        assert forall|g: usize| t.strong_rc@[g] <= 15 && t.obj_color@[g] <= 3
            && t.candidates_status@[g] <= 3 && t.field_unlog@[g] <= 1 by {}
    }
}

} // verus!
