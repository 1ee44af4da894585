//! The side metadata tables and where they lie.
//!
//! Tables are laid out one after another, global ones from the global base and
//! local ones from the local base. The region for global tables ends where the
//! one for local tables begins.

use crate::util::address::{LOG_BYTES_IN_BLOCK, LOG_BYTES_IN_LINE, LOG_MIN_OBJECT_SIZE};
use crate::util::rc::{LOG_REF_COUNT_BITS, LOG_STRONG_REF_COUNT_BITS};
use vstd::arithmetic::power2;
use vstd::prelude::*;

verus! {

/// Log2 of the size of the address space.
pub const LOG_ADDRESS_SPACE: u64 = 47;

/// Log2 of the size of a chunk.
pub const LOG_BYTES_IN_CHUNK: usize = 22;

/// Log2 of the size of a page that the allocator of the system manages.
pub const LOG_BYTES_IN_MALLOC_PAGE: usize = 12;

/// Log2 of the size of a block of the mark-sweep space.
pub const LOG_BYTES_IN_MS_BLOCK: usize = 16;

/// Log2 of the number of bits of an address.
pub const LOG_BITS_IN_ADDRESS: usize = 6;

/// Where global tables begin.
pub const GLOBAL_SIDE_METADATA_BASE_OFFSET: u64 = 0x0000_0600_0000_0000;

/// Where local tables begin: after the half of the address space that is kept
/// for global ones.
pub const LOCAL_SIDE_METADATA_BASE_OFFSET: u64 = 0x0000_4600_0000_0000;

/// A table to be laid out.
#[derive(Debug, PartialEq, Eq)]
pub struct SideMetadataDecl {
    /// Its name.
    pub name: String,
    /// Whether it is global.
    pub is_global: bool,
    /// Log2 of the number of bits of an entry.
    pub log_num_of_bits: usize,
    /// Log2 of the size of the region that an entry is for.
    pub log_bytes_in_region: usize,
}

/// A table, and where it lies.
#[derive(Debug, PartialEq, Eq)]
pub struct SideMetadataSpec {
    /// Its name.
    pub name: String,
    /// Whether it is global.
    pub is_global: bool,
    /// Where it begins.
    pub offset: u64,
    /// Log2 of the number of bits of an entry.
    pub log_num_of_bits: usize,
    /// Log2 of the size of the region that an entry is for.
    pub log_bytes_in_region: usize,
}

/// Whether a table with entries of `2^bits` bits for regions of `2^region` bytes
/// is no larger than the address space, and no smaller than a byte.
pub open spec fn table_fits(bits: usize, region: usize) -> bool {
    &&& bits <= 3 + region
    &&& region <= bits + 44
    &&& bits <= 64
}

/// The size in bytes of a table with entries of `2^bits` bits for regions of
/// `2^region` bytes: one entry for every region of the address space.
pub open spec fn table_size(bits: usize, region: usize) -> nat {
    power2::pow2((44 + bits - region) as nat)
}

/// Whether the table can be laid out.
pub open spec fn decl_fits(d: SideMetadataDecl) -> bool {
    table_fits(d.log_num_of_bits, d.log_bytes_in_region)
}

/// The size of the table.
pub open spec fn decl_size(d: SideMetadataDecl) -> nat {
    table_size(d.log_num_of_bits, d.log_bytes_in_region)
}

/// The size of the first `n` tables.
pub open spec fn total_size(ds: Seq<SideMetadataDecl>, n: int) -> nat
    decreases n,
{
    if n <= 0 {
        0
    } else {
        total_size(ds, n - 1) + decl_size(ds[n - 1])
    }
}

/// Where tables of the kind begin.
pub open spec fn base_of(is_global: bool) -> u64 {
    if is_global {
        GLOBAL_SIDE_METADATA_BASE_OFFSET
    } else {
        LOCAL_SIDE_METADATA_BASE_OFFSET
    }
}

impl SideMetadataSpec {
    /// The table begins in the address space and can be laid out.
    pub open spec fn wf(&self) -> bool {
        &&& table_fits(self.log_num_of_bits, self.log_bytes_in_region)
        &&& self.offset + table_size(self.log_num_of_bits, self.log_bytes_in_region) <= u64::MAX
    }

    /// Where the table ends.
    pub open spec fn end(&self) -> int {
        self.offset + table_size(self.log_num_of_bits, self.log_bytes_in_region)
    }

    /// Where the table ends, and the one after it begins.
    pub fn layout_after(&self) -> (r: u64)
        requires
            self.wf(),
        ensures
            r == self.end(),
    {
        let shift: u64 = 44 + self.log_num_of_bits as u64 - self.log_bytes_in_region as u64;
        proof {
            power2::lemma_pow2_pos(shift as nat);
            if shift >= 64 {
                power2::lemma2_to64_rest();
                if shift > 64 {
                    power2::lemma_pow2_strictly_increases(64, shift as nat);
                }
            }
            vstd::bits::lemma_u64_shl_is_mul(1, shift);
        }
        self.offset + (1u64 << shift)
    }
}

/// Lays out the tables one after another: the first at the base of its kind,
/// each of the others where the one before it ends.
pub fn define_side_metadata_specs(decls: Vec<SideMetadataDecl>) -> (r: Vec<SideMetadataSpec>)
    requires
        forall|i: int| 0 <= i < decls@.len() ==> decl_fits(#[trigger] decls@[i]),
        decls@.len() > 0 ==> base_of(decls@[0].is_global) + total_size(decls@, decls@.len() as int)
            <= u64::MAX,
    ensures
        r@.len() == decls@.len(),
        forall|i: int|
            #![trigger r@[i]]
            0 <= i < decls@.len() ==> {
                &&& r@[i].name == decls@[i].name
                &&& r@[i].is_global == decls@[i].is_global
                &&& r@[i].log_num_of_bits == decls@[i].log_num_of_bits
                &&& r@[i].log_bytes_in_region == decls@[i].log_bytes_in_region
                &&& r@[i].offset == base_of(decls@[0].is_global) + total_size(decls@, i)
                &&& r@[i].wf()
            },
{
    let ghost ds = decls@;
    let mut r: Vec<SideMetadataSpec> = Vec::new();
    for decl in it: decls
        invariant
            it.seq() == ds,
            forall|i: int| 0 <= i < ds.len() ==> decl_fits(#[trigger] ds[i]),
            ds.len() > 0 ==> base_of(ds[0].is_global) + total_size(ds, ds.len() as int)
                <= u64::MAX,
            r@.len() == it.index(),
            forall|i: int|
                #![trigger r@[i]]
                0 <= i < r@.len() ==> {
                    &&& r@[i].name == ds[i].name
                    &&& r@[i].is_global == ds[i].is_global
                    &&& r@[i].log_num_of_bits == ds[i].log_num_of_bits
                    &&& r@[i].log_bytes_in_region == ds[i].log_bytes_in_region
                    &&& r@[i].offset == base_of(ds[0].is_global) + total_size(ds, i)
                    &&& r@[i].wf()
                },
    {
        let n: usize = r.len();
        proof {
            let k = it.index() as int;
            assert(decl == ds[k]);
            assert(decl_fits(ds[k]));
            total_size_monotone(ds, k + 1, ds.len() as int);
        }
        let offset: u64 = if n == 0 {
            if decl.is_global {
                GLOBAL_SIDE_METADATA_BASE_OFFSET
            } else {
                LOCAL_SIDE_METADATA_BASE_OFFSET
            }
        } else {
            r[n - 1].layout_after()
        };
        r.push(
            SideMetadataSpec {
                name: decl.name,
                is_global: decl.is_global,
                offset,
                log_num_of_bits: decl.log_num_of_bits,
                log_bytes_in_region: decl.log_bytes_in_region,
            },
        );
    }
    r
}

/// More tables take at least as much.
proof fn total_size_monotone(ds: Seq<SideMetadataDecl>, m: int, n: int)
    requires
        m <= n,
    ensures
        total_size(ds, m) <= total_size(ds, n),
    decreases n - m,
{
    if m < n {
        total_size_monotone(ds, m, n - 1);
    }
}

/// Two tables that are laid out together do not overlap.
pub proof fn tables_do_not_overlap(ds: Seq<SideMetadataDecl>, base: int, i: int, j: int)
    requires
        0 <= i < j < ds.len(),
    ensures
        base + total_size(ds, i) + decl_size(ds[i]) <= base + total_size(ds, j),
{
    total_size_monotone(ds, i + 1, j);
}

/// A declaration with the given numbers.
fn declare(name: &str, is_global: bool, log_num_of_bits: usize, log_bytes_in_region: usize) -> (r:
    SideMetadataDecl)
    ensures
        r.name@ == name@,
        r.is_global == is_global,
        r.log_num_of_bits == log_num_of_bits,
        r.log_bytes_in_region == log_bytes_in_region,
{
    SideMetadataDecl { name: name.to_owned(), is_global, log_num_of_bits, log_bytes_in_region }
}

/// Whether the tables have the names, have entries of `2^shape.0` bits for
/// regions of `2^shape.1` bytes, and are global or not.
pub open spec fn has_shapes(
    ds: Seq<SideMetadataDecl>,
    is_global: bool,
    names: Seq<Seq<char>>,
    shapes: Seq<(usize, usize)>,
) -> bool {
    &&& ds.len() == shapes.len() == names.len()
    &&& forall|i: int|
        #![trigger ds[i]]
        0 <= i < ds.len() ==> {
            &&& ds[i].name@ == names[i]
            &&& ds[i].is_global == is_global
            &&& ds[i].log_num_of_bits == shapes[i].0
            &&& ds[i].log_bytes_in_region == shapes[i].1
        }
}

/// The names of the global tables.
pub open spec fn global_names() -> Seq<Seq<char>> {
    seq![
        "VO_BIT"@,
        "MS_ACTIVE_CHUNK"@,
        "SFT_DENSE_CHUNK_MAP_INDEX"@,
        "RC_TABLE"@,
        "OVERFLOW_RC_TABLE"@,
        "IX_BLOCK_DEFRAG"@,
        "SANITY_MARK_BITS"@,
        "OBJ_COLOR_TABLE"@,
        "CANDIDATES_STATUS"@,
        "STRONG_RC_TABLE"@,
        "SANITY_DEAD_CYCLE_COUNT"@,
        "GRAPH_REPORT_MARK"@,
    ]
}

/// The shapes of the global tables.
pub open spec fn global_shapes() -> Seq<(usize, usize)> {
    seq![
        (0, 4),
        (3, 22),
        (3, 22),
        (3, 4),
        (5, 4),
        (3, 15),
        (2, 4),
        (1, 4),
        (1, 4),
        (2, 4),
        (2, 4),
        (0, 4),
    ]
}

/// The names of the local tables.
pub open spec fn local_names() -> Seq<Seq<char>> {
    seq![
        "MALLOC_MS_ACTIVE_PAGE"@,
        "MS_OFFSET_MALLOC"@,
        "IX_LINE_MARK"@,
        "IX_BLOCK_MARK"@,
        "RC_STRADDLE_LINES"@,
        "IX_BLOCK_LOG"@,
        "NURSERY_PROMOTION_STATE"@,
        "PHASE_EPOCH"@,
        "IX_BLOCK_DEAD_WORDS"@,
        "CHUNK_MARK"@,
        "CHUNK_BIN"@,
        "CHUNK_LIVE_BLOCKS"@,
        "CHUNK_PREV"@,
        "CHUNK_NEXT"@,
        "BLOCK_OWNER"@,
        "BLOCK_IN_USE"@,
        "IX_BLOCK_ALLOC_BITS"@,
        "MS_BLOCK_MARK"@,
        "MS_BLOCK_NEXT"@,
        "MS_BLOCK_PREV"@,
        "MS_BLOCK_LIST"@,
        "MS_BLOCK_SIZE"@,
        "MS_BLOCK_TLS"@,
        "MS_FREE"@,
        "MS_LOCAL_FREE"@,
        "MS_THREAD_FREE"@,
    ]
}

/// The shapes of the local tables.
pub open spec fn local_shapes() -> Seq<(usize, usize)> {
    seq![
        (3, 12),
        (0, 4),
        (3, 8),
        (3, 15),
        (3, 8),
        (0, 15),
        (3, 15),
        (3, 15),
        (5, 15),
        (3, 22),
        (3, 22),
        (4, 22),
        (6, 22),
        (6, 22),
        (6, 15),
        (3, 15),
        (3, 15),
        (3, 16),
        (6, 16),
        (6, 16),
        (6, 16),
        (6, 16),
        (6, 16),
        (6, 16),
        (6, 16),
        (6, 16),
    ]
}

/// The declarations of the global tables.
pub fn global_decls() -> (r: Vec<SideMetadataDecl>)
    ensures
        has_shapes(r@, true, global_names(), global_shapes()),
{
    let mut r: Vec<SideMetadataDecl> = Vec::new();
    // The start of an object.
    r.push(declare("VO_BIT", true, 0, LOG_MIN_OBJECT_SIZE));
    // Chunks that the mark-sweep space uses.
    r.push(declare("MS_ACTIVE_CHUNK", true, 3, LOG_BYTES_IN_CHUNK));
    // The index of the space of a chunk.
    r.push(declare("SFT_DENSE_CHUNK_MAP_INDEX", true, 3, LOG_BYTES_IN_CHUNK));
    // Reference counts.
    r.push(declare("RC_TABLE", true, LOG_REF_COUNT_BITS, LOG_MIN_OBJECT_SIZE));
    // By how much saturated reference counts exceed the limit.
    r.push(declare("OVERFLOW_RC_TABLE", true, 5, LOG_MIN_OBJECT_SIZE));
    // Which blocks are being emptied.
    r.push(declare("IX_BLOCK_DEFRAG", true, 3, LOG_BYTES_IN_BLOCK));
    // The epoch in which a sanity trace last marked an object. The width sets
    // after how many epochs a mark looks current again.
    r.push(declare("SANITY_MARK_BITS", true, 2, LOG_MIN_OBJECT_SIZE));
    // Colours.
    r.push(declare("OBJ_COLOR_TABLE", true, 1, LOG_MIN_OBJECT_SIZE));
    // Candidate tags.
    r.push(declare("CANDIDATES_STATUS", true, 1, LOG_MIN_OBJECT_SIZE));
    // Strong reference counts.
    r.push(declare("STRONG_RC_TABLE", true, LOG_STRONG_REF_COUNT_BITS, LOG_MIN_OBJECT_SIZE));
    // For how many collections a dead object was left.
    r.push(declare("SANITY_DEAD_CYCLE_COUNT", true, 2, LOG_MIN_OBJECT_SIZE));
    // Which objects a report has named.
    r.push(declare("GRAPH_REPORT_MARK", true, 0, LOG_MIN_OBJECT_SIZE));
    r
}

/// The declarations of the local tables.
#[verifier::rlimit(40)]
pub fn local_decls() -> (r: Vec<SideMetadataDecl>)
    ensures
        has_shapes(r@, false, local_names(), local_shapes()),
{
    let mut r: Vec<SideMetadataDecl> = Vec::new();
    r.push(declare("MALLOC_MS_ACTIVE_PAGE", false, 3, LOG_BYTES_IN_MALLOC_PAGE));
    r.push(declare("MS_OFFSET_MALLOC", false, 0, LOG_MIN_OBJECT_SIZE));
    r.push(declare("IX_LINE_MARK", false, 3, LOG_BYTES_IN_LINE));
    r.push(declare("IX_BLOCK_MARK", false, 3, LOG_BYTES_IN_BLOCK));
    r.push(declare("RC_STRADDLE_LINES", false, 3, LOG_BYTES_IN_LINE));
    r.push(declare("IX_BLOCK_LOG", false, 0, LOG_BYTES_IN_BLOCK));
    r.push(declare("NURSERY_PROMOTION_STATE", false, 3, LOG_BYTES_IN_BLOCK));
    r.push(declare("PHASE_EPOCH", false, 3, LOG_BYTES_IN_BLOCK));
    r.push(declare("IX_BLOCK_DEAD_WORDS", false, 5, LOG_BYTES_IN_BLOCK));
    r.push(declare("CHUNK_MARK", false, 3, LOG_BYTES_IN_CHUNK));
    r.push(declare("CHUNK_BIN", false, 3, LOG_BYTES_IN_CHUNK));
    r.push(declare("CHUNK_LIVE_BLOCKS", false, 4, LOG_BYTES_IN_CHUNK));
    r.push(declare("CHUNK_PREV", false, 6, LOG_BYTES_IN_CHUNK));
    r.push(declare("CHUNK_NEXT", false, 6, LOG_BYTES_IN_CHUNK));
    r.push(declare("BLOCK_OWNER", false, 6, LOG_BYTES_IN_BLOCK));
    r.push(declare("BLOCK_IN_USE", false, 3, LOG_BYTES_IN_BLOCK));
    r.push(declare("IX_BLOCK_ALLOC_BITS", false, 3, LOG_BYTES_IN_BLOCK));
    r.push(declare("MS_BLOCK_MARK", false, 3, LOG_BYTES_IN_MS_BLOCK));
    r.push(declare("MS_BLOCK_NEXT", false, LOG_BITS_IN_ADDRESS, LOG_BYTES_IN_MS_BLOCK));
    r.push(declare("MS_BLOCK_PREV", false, LOG_BITS_IN_ADDRESS, LOG_BYTES_IN_MS_BLOCK));
    r.push(declare("MS_BLOCK_LIST", false, LOG_BITS_IN_ADDRESS, LOG_BYTES_IN_MS_BLOCK));
    r.push(declare("MS_BLOCK_SIZE", false, LOG_BITS_IN_ADDRESS, LOG_BYTES_IN_MS_BLOCK));
    r.push(declare("MS_BLOCK_TLS", false, LOG_BITS_IN_ADDRESS, LOG_BYTES_IN_MS_BLOCK));
    r.push(declare("MS_FREE", false, LOG_BITS_IN_ADDRESS, LOG_BYTES_IN_MS_BLOCK));
    r.push(declare("MS_LOCAL_FREE", false, LOG_BITS_IN_ADDRESS, LOG_BYTES_IN_MS_BLOCK));
    r.push(declare("MS_THREAD_FREE", false, LOG_BITS_IN_ADDRESS, LOG_BYTES_IN_MS_BLOCK));
    r
}

/// The size of the first `n` tables of the given shapes.
pub open spec fn total_of_shapes(shapes: Seq<(usize, usize)>, n: int) -> nat
    decreases n,
{
    if n <= 0 {
        0
    } else {
        total_of_shapes(shapes, n - 1) + table_size(shapes[n - 1].0, shapes[n - 1].1)
    }
}

/// Tables of the given shapes have the size that the shapes give.
proof fn shapes_give_size(
    ds: Seq<SideMetadataDecl>,
    is_global: bool,
    names: Seq<Seq<char>>,
    shapes: Seq<(usize, usize)>,
    n: int,
)
    requires
        has_shapes(ds, is_global, names, shapes),
        n <= ds.len(),
    ensures
        total_size(ds, n) == total_of_shapes(shapes, n),
    decreases n,
{
    if n > 0 {
        shapes_give_size(ds, is_global, names, shapes, n - 1);
        assert(ds[n - 1].log_num_of_bits == shapes[n - 1].0);
    }
}

/// The global tables end before the local ones begin.
pub proof fn global_tables_end_before_local()
    ensures
        GLOBAL_SIDE_METADATA_BASE_OFFSET + total_of_shapes(global_shapes(), 12)
            <= LOCAL_SIDE_METADATA_BASE_OFFSET,
{
    power2::lemma2_to64();
    power2::lemma2_to64_rest();
    reveal_with_fuel(total_of_shapes, 13);
}

/// The local tables end inside the addresses.
proof fn local_tables_fit()
    ensures
        LOCAL_SIDE_METADATA_BASE_OFFSET + total_of_shapes(local_shapes(), 26) <= u64::MAX,
{
    power2::lemma2_to64();
    power2::lemma2_to64_rest();
    reveal_with_fuel(total_of_shapes, 27);
}

/// The global tables, laid out. They end before the local ones begin.
pub fn global_side_metadata_specs() -> (r: Vec<SideMetadataSpec>)
    ensures
        r@.len() == 12,
        forall|i: int|
            #![trigger r@[i]]
            0 <= i < 12 ==> {
                &&& r@[i].name@ == global_names()[i]
                &&& r@[i].is_global
                &&& (r@[i].log_num_of_bits, r@[i].log_bytes_in_region) == global_shapes()[i]
                &&& r@[i].offset == GLOBAL_SIDE_METADATA_BASE_OFFSET + total_of_shapes(
                    global_shapes(),
                    i,
                )
                &&& r@[i].end() <= LOCAL_SIDE_METADATA_BASE_OFFSET
            },
{
    let decls = global_decls();
    let ghost ds = decls@;
    proof {
        assert forall|i: int| 0 <= i < ds.len() implies decl_fits(#[trigger] ds[i]) by {}
        shapes_give_size(ds, true, global_names(), global_shapes(), 12);
        global_tables_end_before_local();
    }
    let r = define_side_metadata_specs(decls);
    proof {
        assert forall|i: int| #![trigger r@[i]] 0 <= i < 12 implies {
            &&& r@[i].offset == GLOBAL_SIDE_METADATA_BASE_OFFSET + total_of_shapes(
                global_shapes(),
                i,
            )
            &&& r@[i].end() <= LOCAL_SIDE_METADATA_BASE_OFFSET
        } by {
            shapes_give_size(ds, true, global_names(), global_shapes(), i);
            total_size_monotone(ds, i + 1, 12);
        }
    }
    r
}

/// The local tables, laid out.
pub fn local_side_metadata_specs() -> (r: Vec<SideMetadataSpec>)
    ensures
        r@.len() == 26,
        forall|i: int|
            #![trigger r@[i]]
            0 <= i < 26 ==> {
                &&& r@[i].name@ == local_names()[i]
                &&& !r@[i].is_global
                &&& (r@[i].log_num_of_bits, r@[i].log_bytes_in_region) == local_shapes()[i]
                &&& r@[i].offset == LOCAL_SIDE_METADATA_BASE_OFFSET + total_of_shapes(
                    local_shapes(),
                    i,
                )
            },
{
    let decls = local_decls();
    let ghost ds = decls@;
    proof {
        assert forall|i: int| 0 <= i < ds.len() implies decl_fits(#[trigger] ds[i]) by {}
        shapes_give_size(ds, false, local_names(), local_shapes(), 26);
        local_tables_fit();
    }
    let r = define_side_metadata_specs(decls);
    proof {
        assert forall|i: int| #![trigger r@[i]] 0 <= i < 26 implies r@[i].offset
            == LOCAL_SIDE_METADATA_BASE_OFFSET + total_of_shapes(local_shapes(), i) by {
            shapes_give_size(ds, false, local_names(), local_shapes(), i);
        }
    }
    r
}

} // verus!
