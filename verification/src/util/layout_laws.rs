//! How large the tables of side metadata are and where they lie.

use crate::util::spec_defs;
use crate::util::spec_defs::{SideMetadataDecl, SideMetadataSpec};
use vstd::arithmetic::power2;
use vstd::prelude::*;
use vstd::string::*;

verus! {

/// A table has one entry for every region of the address space of 47 bits: its
/// bytes, times eight bits, times the size of a region are as many as the bytes of
/// the address space times the bits of an entry.
pub proof fn table_has_an_entry_for_each_region(bits: usize, region: usize)
    requires
        spec_defs::table_fits(bits, region),
    ensures
        spec_defs::table_size(bits, region) * 8 * power2::pow2(region as nat) == power2::pow2(47)
            * power2::pow2(bits as nat),
{
    let n = (44 + bits - region) as nat;
    power2::lemma_pow2_adds(n, 3);
    power2::lemma_pow2_adds(n + 3, region as nat);
    power2::lemma_pow2_adds(47, bits as nat);
    power2::lemma2_to64();
    assert(n + 3 + region == 47 + bits);
}

/// A table can be laid out exactly if it has at least a byte, an entry is no longer
/// than eight times its region, and the length of an entry has an address.
pub proof fn tables_that_fit(bits: usize, region: usize)
    ensures
        spec_defs::table_fits(bits, region) <==> region <= 44 + bits && bits <= region + 3 && bits
            <= 64,
{
}

/// Tables follow each other without a gap: the first begins at the base of its
/// kind, and each of the others where the one before it ends.
pub proof fn tables_follow_each_other(ds: Seq<SideMetadataDecl>, i: int)
    requires
        0 <= i < ds.len(),
    ensures
        spec_defs::total_size(ds, 0) == 0,
        spec_defs::total_size(ds, i + 1) == spec_defs::total_size(ds, i) + spec_defs::table_size(
            ds[i].log_num_of_bits,
            ds[i].log_bytes_in_region,
        ),
        spec_defs::decl_size(ds[i]) == spec_defs::table_size(
            ds[i].log_num_of_bits,
            ds[i].log_bytes_in_region,
        ),
        spec_defs::decl_fits(ds[i]) <==> spec_defs::table_fits(
            ds[i].log_num_of_bits,
            ds[i].log_bytes_in_region,
        ),
        spec_defs::base_of(true) == 0x600_0000_0000,
        spec_defs::base_of(false) == 0x600_0000_0000 + 0x4000_0000_0000,
{
}

/// A table ends its size behind its beginning, and it is well-formed exactly if it
/// fits and ends inside 64 bits.
pub proof fn table_ends_behind_its_size(t: SideMetadataSpec)
    ensures
        t.end() == t.offset + spec_defs::table_size(t.log_num_of_bits, t.log_bytes_in_region),
        t.wf() <==> spec_defs::table_fits(t.log_num_of_bits, t.log_bytes_in_region) && t.end()
            <= u64::MAX,
{
}

/// The sizes of tables of given shapes are added up one by one.
pub proof fn shapes_follow_each_other(shapes: Seq<(usize, usize)>, i: int)
    requires
        0 <= i < shapes.len(),
    ensures
        spec_defs::total_of_shapes(shapes, 0) == 0,
        spec_defs::total_of_shapes(shapes, i + 1) == spec_defs::total_of_shapes(shapes, i)
            + spec_defs::table_size(shapes[i].0, shapes[i].1),
{
}

/// Tables have the names and the shapes that are given, one for each.
pub proof fn tables_have_their_shapes(
    ds: Seq<SideMetadataDecl>,
    is_global: bool,
    names: Seq<Seq<char>>,
    shapes: Seq<(usize, usize)>,
    i: int,
)
    requires
        spec_defs::has_shapes(ds, is_global, names, shapes),
    ensures
        ds.len() == names.len(),
        ds.len() == shapes.len(),
        0 <= i < ds.len() ==> ds[i].name@ == names[i] && ds[i].is_global == is_global && (
            ds[i].log_num_of_bits,
            ds[i].log_bytes_in_region,
        ) == shapes[i],
{
}

/// Whether the table at place `i` has that name, entries of so many bits and an
/// entry for every so many bytes.
pub open spec fn table_is(
    names: Seq<Seq<char>>,
    shapes: Seq<(usize, usize)>,
    i: int,
    name: Seq<char>,
    bits: nat,
    bytes: nat,
) -> bool {
    &&& names[i] == name
    &&& power2::pow2(shapes[i].0 as nat) == bits
    &&& power2::pow2(shapes[i].1 as nat) == bytes
}

/// The global tables: valid-object bits, reference counts of eight bits and their
/// excess of 32, strong counts of four, and two bits for a colour and for a tag, for
/// every sixteen bytes; and the tables of blocks and chunks.
pub proof fn global_tables_are()
    ensures
        spec_defs::global_names().len() == 12,
        spec_defs::global_shapes().len() == 12,
        table_is(spec_defs::global_names(), spec_defs::global_shapes(), 0, "VO_BIT"@, 1, 16),
        table_is(spec_defs::global_names(), spec_defs::global_shapes(), 1, "MS_ACTIVE_CHUNK"@, 8, 4194304),
        table_is(spec_defs::global_names(), spec_defs::global_shapes(), 2, "SFT_DENSE_CHUNK_MAP_INDEX"@, 8, 4194304),
        table_is(spec_defs::global_names(), spec_defs::global_shapes(), 3, "RC_TABLE"@, 8, 16),
        table_is(spec_defs::global_names(), spec_defs::global_shapes(), 4, "OVERFLOW_RC_TABLE"@, 32, 16),
        table_is(spec_defs::global_names(), spec_defs::global_shapes(), 5, "IX_BLOCK_DEFRAG"@, 8, 32768),
        table_is(spec_defs::global_names(), spec_defs::global_shapes(), 6, "SANITY_MARK_BITS"@, 4, 16),
        table_is(spec_defs::global_names(), spec_defs::global_shapes(), 7, "OBJ_COLOR_TABLE"@, 2, 16),
        table_is(spec_defs::global_names(), spec_defs::global_shapes(), 8, "CANDIDATES_STATUS"@, 2, 16),
        table_is(spec_defs::global_names(), spec_defs::global_shapes(), 9, "STRONG_RC_TABLE"@, 4, 16),
        table_is(spec_defs::global_names(), spec_defs::global_shapes(), 10, "SANITY_DEAD_CYCLE_COUNT"@, 4, 16),
        table_is(spec_defs::global_names(), spec_defs::global_shapes(), 11, "GRAPH_REPORT_MARK"@, 1, 16),
{
    power2::lemma2_to64();
}

/// The local tables: of lines, blocks, chunks and pages.
pub proof fn local_tables_are()
    ensures
        spec_defs::local_names().len() == 26,
        spec_defs::local_shapes().len() == 26,
        table_is(spec_defs::local_names(), spec_defs::local_shapes(), 0, "MALLOC_MS_ACTIVE_PAGE"@, 8, 4096),
        table_is(spec_defs::local_names(), spec_defs::local_shapes(), 1, "MS_OFFSET_MALLOC"@, 1, 16),
        table_is(spec_defs::local_names(), spec_defs::local_shapes(), 2, "IX_LINE_MARK"@, 8, 256),
        table_is(spec_defs::local_names(), spec_defs::local_shapes(), 3, "IX_BLOCK_MARK"@, 8, 32768),
        table_is(spec_defs::local_names(), spec_defs::local_shapes(), 4, "RC_STRADDLE_LINES"@, 8, 256),
        table_is(spec_defs::local_names(), spec_defs::local_shapes(), 5, "IX_BLOCK_LOG"@, 1, 32768),
        table_is(spec_defs::local_names(), spec_defs::local_shapes(), 6, "NURSERY_PROMOTION_STATE"@, 8, 32768),
        table_is(spec_defs::local_names(), spec_defs::local_shapes(), 7, "PHASE_EPOCH"@, 8, 32768),
        table_is(spec_defs::local_names(), spec_defs::local_shapes(), 8, "IX_BLOCK_DEAD_WORDS"@, 32, 32768),
        table_is(spec_defs::local_names(), spec_defs::local_shapes(), 9, "CHUNK_MARK"@, 8, 4194304),
        table_is(spec_defs::local_names(), spec_defs::local_shapes(), 10, "CHUNK_BIN"@, 8, 4194304),
        table_is(spec_defs::local_names(), spec_defs::local_shapes(), 11, "CHUNK_LIVE_BLOCKS"@, 16, 4194304),
        table_is(spec_defs::local_names(), spec_defs::local_shapes(), 12, "CHUNK_PREV"@, 64, 4194304),
        table_is(spec_defs::local_names(), spec_defs::local_shapes(), 13, "CHUNK_NEXT"@, 64, 4194304),
        table_is(spec_defs::local_names(), spec_defs::local_shapes(), 14, "BLOCK_OWNER"@, 64, 32768),
        table_is(spec_defs::local_names(), spec_defs::local_shapes(), 15, "BLOCK_IN_USE"@, 8, 32768),
        table_is(spec_defs::local_names(), spec_defs::local_shapes(), 16, "IX_BLOCK_ALLOC_BITS"@, 8, 32768),
        table_is(spec_defs::local_names(), spec_defs::local_shapes(), 17, "MS_BLOCK_MARK"@, 8, 65536),
        table_is(spec_defs::local_names(), spec_defs::local_shapes(), 18, "MS_BLOCK_NEXT"@, 64, 65536),
        table_is(spec_defs::local_names(), spec_defs::local_shapes(), 19, "MS_BLOCK_PREV"@, 64, 65536),
        table_is(spec_defs::local_names(), spec_defs::local_shapes(), 20, "MS_BLOCK_LIST"@, 64, 65536),
        table_is(spec_defs::local_names(), spec_defs::local_shapes(), 21, "MS_BLOCK_SIZE"@, 64, 65536),
        table_is(spec_defs::local_names(), spec_defs::local_shapes(), 22, "MS_BLOCK_TLS"@, 64, 65536),
        table_is(spec_defs::local_names(), spec_defs::local_shapes(), 23, "MS_FREE"@, 64, 65536),
        table_is(spec_defs::local_names(), spec_defs::local_shapes(), 24, "MS_LOCAL_FREE"@, 64, 65536),
        table_is(spec_defs::local_names(), spec_defs::local_shapes(), 25, "MS_THREAD_FREE"@, 64, 65536),
{
    power2::lemma2_to64();
}

} // verus!
