use vstd::prelude::*;
use crate::memory::{
    alloc_addr, alloc_cursor, bytes_at, byte_at, free_spec, free_index, has_alloc, has_region,
    lemma_alloc_cursor, lemma_free_index_unique, lemma_region_of_unique, lemma_set_prot,
    lemma_store_bytes, lemma_wf_remove, prot_at, range_in, range_readable, range_writable,
    region_contains, region_end, region_of, regions_disjoint, set_prot, space_wf, store_bytes,
    zero_bytes, RegionModel,
};
use crate::process::{
    lemma_u32_le_roundtrip, lemma_u64_le_roundtrip, u32_le_bytes, u32_of_le, u64_le_bytes,
    u64_of_le,
};
use crate::protections::Protections;

verus! {

/// A space grown by one freshly committed zeroed region.
pub open spec fn alloc_grown(rs: Seq<RegionModel>, a: int, sz: int, prot: Protections) -> Seq<
    RegionModel,
> {
    rs.push(RegionModel { base: a, prot, bytes: zero_bytes(sz) })
}

/// Law: within a writable region, a write leaves the space well-formed and
/// readable there, and the stored bytes read back unchanged.
pub proof fn lemma_write_read_roundtrip(rs: Seq<RegionModel>, a: int, data: Seq<u8>)
    requires
        space_wf(rs),
        range_writable(rs, a, data.len() as int),
    ensures
        space_wf(store_bytes(rs, a, data)),
        range_readable(store_bytes(rs, a, data), a, data.len() as int),
        bytes_at(store_bytes(rs, a, data), a, data.len() as int) == data,
{
    lemma_store_bytes(rs, a, data);
    assert(bytes_at(store_bytes(rs, a, data), a, data.len() as int) =~= data);
}

/// Law: writing a value as its little-endian bytes and decoding the four
/// bytes read back yields the value again.
pub proof fn lemma_write_read_u32(rs: Seq<RegionModel>, a: int, v: u32)
    requires
        space_wf(rs),
        range_writable(rs, a, 4),
    ensures
        space_wf(store_bytes(rs, a, u32_le_bytes(v))),
        range_readable(store_bytes(rs, a, u32_le_bytes(v)), a, 4),
        u32_of_le(
            byte_at(store_bytes(rs, a, u32_le_bytes(v)), a),
            byte_at(store_bytes(rs, a, u32_le_bytes(v)), a + 1),
            byte_at(store_bytes(rs, a, u32_le_bytes(v)), a + 2),
            byte_at(store_bytes(rs, a, u32_le_bytes(v)), a + 3),
        ) == v as int,
{
    lemma_write_read_roundtrip(rs, a, u32_le_bytes(v));
    lemma_u32_le_roundtrip(v);
    let rs2 = store_bytes(rs, a, u32_le_bytes(v));
    assert(byte_at(rs2, a) == bytes_at(rs2, a, 4)[0]);
    assert(byte_at(rs2, a + 1) == bytes_at(rs2, a, 4)[1]);
    assert(byte_at(rs2, a + 2) == bytes_at(rs2, a, 4)[2]);
    assert(byte_at(rs2, a + 3) == bytes_at(rs2, a, 4)[3]);
}

/// Law: writing a wide value as its little-endian bytes and decoding the
/// eight bytes read back yields the value again.
pub proof fn lemma_write_read_u64(rs: Seq<RegionModel>, a: int, v: u64)
    requires
        space_wf(rs),
        range_writable(rs, a, 8),
    ensures
        space_wf(store_bytes(rs, a, u64_le_bytes(v))),
        range_readable(store_bytes(rs, a, u64_le_bytes(v)), a, 8),
        u64_of_le(bytes_at(store_bytes(rs, a, u64_le_bytes(v)), a, 8)) == v as int,
{
    lemma_write_read_roundtrip(rs, a, u64_le_bytes(v));
    lemma_u64_le_roundtrip(v);
}

/// Law: changing a range's protection twice to the same state is idempotent
/// as a query — the second change still succeeds and reports that state as
/// the protection held before it.
pub proof fn lemma_protect_idempotent(rs: Seq<RegionModel>, a: int, sz: int, p: Protections)
    requires
        space_wf(rs),
        range_in(rs, a, sz),
    ensures
        space_wf(set_prot(rs, a, p)),
        range_in(set_prot(rs, a, p), a, sz),
        prot_at(set_prot(rs, a, p), a) == p,
{
    lemma_set_prot(rs, a, p);
}

/// Law: restoring the protection an earlier change reported brings every
/// address back to the protection it held before the first change, and
/// touches no byte.
pub proof fn lemma_protect_restore(rs: Seq<RegionModel>, a: int, sz: int, p: Protections)
    requires
        space_wf(rs),
        range_in(rs, a, sz),
    ensures
        space_wf(set_prot(set_prot(rs, a, p), a, prot_at(rs, a))),
        range_in(set_prot(set_prot(rs, a, p), a, prot_at(rs, a)), a, sz),
        forall|x: int|
            prot_at(set_prot(set_prot(rs, a, p), a, prot_at(rs, a)), x) == prot_at(rs, x),
        forall|x: int|
            has_region(rs, x) ==> byte_at(set_prot(set_prot(rs, a, p), a, prot_at(rs, a)), x)
                == byte_at(rs, x),
{
    let rs1 = set_prot(rs, a, p);
    lemma_set_prot(rs, a, p);
    lemma_set_prot(rs1, a, prot_at(rs, a));
    let rs2 = set_prot(rs1, a, prot_at(rs, a));
    assert forall|x: int| prot_at(rs2, x) == prot_at(rs, x) by {
        if has_region(rs, x) {
            assert(region_of(rs1, x) == region_of(rs, x));
            assert(region_of(rs1, a) == region_of(rs, a));
            if region_of(rs, x) == region_of(rs, a) {
                assert(prot_at(rs2, x) == prot_at(rs, a));
                assert(prot_at(rs, x) == rs[region_of(rs, x)].prot);
            } else {
                assert(prot_at(rs2, x) == prot_at(rs1, x));
                assert(prot_at(rs1, x) == prot_at(rs, x));
            }
        } else {
            assert(!has_region(rs1, x));
            assert(!has_region(rs2, x));
        }
    }
}

/// Law: releasing an allocation leaves the space well-formed with nothing
/// committed anywhere in the released range.
pub proof fn lemma_free_uncommits(rs: Seq<RegionModel>, a: int, sz: int)
    requires
        space_wf(rs),
        has_alloc(rs, a, sz),
    ensures
        space_wf(free_spec(rs, a, sz)),
        forall|x: int| a <= x < a + sz ==> !has_region(free_spec(rs, a, sz), x),
{
    let i = free_index(rs, a, sz);
    assert(0 <= i < rs.len() && rs[i].base == a && rs[i].bytes.len() == sz);
    lemma_wf_remove(rs, i);
    let rs2 = rs.remove(i);
    assert forall|x: int| a <= x < a + sz implies !has_region(rs2, x) by {
        assert(region_contains(rs[i], x));
        if has_region(rs2, x) {
            let k = region_of(rs2, x);
            assert(0 <= k < rs2.len() && region_contains(rs2[k], x));
            let k0: int = if k < i {
                k
            } else {
                k + 1
            };
            assert(rs2[k] == rs[k0]);
            assert(regions_disjoint(rs[k0], rs[i]));
        }
    }
}

/// Law: the allocation lifecycle. An allocation without a hint succeeds at
/// the bump address while space remains; bytes written inside the fresh
/// range read back unchanged; and after release, no address of the range
/// is committed any more, so a query there reports a degenerate region.
pub proof fn lemma_alloc_lifecycle(rs: Seq<RegionModel>, size: int, data: Seq<u8>)
    requires
        space_wf(rs),
        0 < size,
        alloc_cursor(rs) + size <= usize::MAX as int,
        data.len() == size,
    ensures
        alloc_addr(rs, None, size) == Some(alloc_cursor(rs)),
        space_wf(alloc_grown(rs, alloc_cursor(rs), size, Protections::ReadWrite)),
        range_writable(
            alloc_grown(rs, alloc_cursor(rs), size, Protections::ReadWrite),
            alloc_cursor(rs),
            size,
        ),
        range_readable(
            alloc_grown(rs, alloc_cursor(rs), size, Protections::ReadWrite),
            alloc_cursor(rs),
            size,
        ),
        bytes_at(
            store_bytes(
                alloc_grown(rs, alloc_cursor(rs), size, Protections::ReadWrite),
                alloc_cursor(rs),
                data,
            ),
            alloc_cursor(rs),
            size,
        ) == data,
        has_alloc(
            store_bytes(
                alloc_grown(rs, alloc_cursor(rs), size, Protections::ReadWrite),
                alloc_cursor(rs),
                data,
            ),
            alloc_cursor(rs),
            size,
        ),
        forall|x: int|
            alloc_cursor(rs) <= x < alloc_cursor(rs) + size ==> !has_region(
                free_spec(
                    store_bytes(
                        alloc_grown(rs, alloc_cursor(rs), size, Protections::ReadWrite),
                        alloc_cursor(rs),
                        data,
                    ),
                    alloc_cursor(rs),
                    size,
                ),
                x,
            ),
{
    let b = alloc_cursor(rs);
    lemma_alloc_cursor(rs);
    let m = RegionModel { base: b, prot: Protections::ReadWrite, bytes: zero_bytes(size) };
    let rs1 = alloc_grown(rs, b, size, Protections::ReadWrite);
    assert(rs1[rs.len() as int] == m);
    assert forall|i: int, j: int|
        0 <= i < rs1.len() && 0 <= j < rs1.len() && i != j implies regions_disjoint(
        #[trigger] rs1[i],
        #[trigger] rs1[j],
    ) by {
        if i < rs.len() && j < rs.len() {
            assert(regions_disjoint(rs[i], rs[j]));
        } else if i < rs.len() {
            assert(region_end(rs[i]) <= b);
        } else {
            assert(region_end(rs[j]) <= b);
        }
    }
    assert(space_wf(rs1));
    assert(region_contains(rs1[rs.len() as int], b));
    lemma_region_of_unique(rs1, b, rs.len() as int);
    assert(range_writable(rs1, b, size));
    lemma_write_read_roundtrip(rs1, b, data);
    let rs2 = store_bytes(rs1, b, data);
    assert(rs2[rs.len() as int].base == b);
    assert(rs2[rs.len() as int].bytes.len() == size);
    lemma_free_index_unique(rs2, b, size, rs.len() as int);
    lemma_free_uncommits(rs2, b, size);
}

} // verus!
