use vstd::prelude::*;
use crate::errors::MemError;
use crate::protections::Protections;

verus! {

/// Lowest address the allocator hands out when no hint is usable, so the
/// null page is never committed.
pub const ALLOC_BASE: usize = 0x10000;

/// One committed span of an address space.
#[derive(Debug)]
struct Region {
    base: usize,
    prot: Protections,
    bytes: Vec<u8>,
}

/// The mathematical image of one committed region.
pub ghost struct RegionModel {
    /// first address of the region
    pub base: int,
    /// protection of every byte in the region
    pub prot: Protections,
    /// the bytes the region holds
    pub bytes: Seq<u8>,
}

/// Address of the first byte past a region.
pub open spec fn region_end(r: RegionModel) -> int {
    r.base + r.bytes.len()
}

/// Whether address `a` lies inside region `r`.
pub open spec fn region_contains(r: RegionModel, a: int) -> bool {
    r.base <= a && a < region_end(r)
}

/// Whether two regions cover no common address.
pub open spec fn regions_disjoint(r1: RegionModel, r2: RegionModel) -> bool {
    region_end(r1) <= r2.base || region_end(r2) <= r1.base
}

/// Well-formedness of a modeled address space: every region is non-empty,
/// ends at or below the top of the address space, and no two regions overlap.
pub open spec fn space_wf(rs: Seq<RegionModel>) -> bool {
    &&& forall|i: int|
        0 <= i < rs.len() ==> 0 < (#[trigger] rs[i]).bytes.len() && 0 <= rs[i].base
            && region_end(rs[i]) <= usize::MAX as int
    &&& forall|i: int, j: int|
        0 <= i < rs.len() && 0 <= j < rs.len() && i != j ==> regions_disjoint(
            #[trigger] rs[i],
            #[trigger] rs[j],
        )
}

/// Whether some region covers address `a`.
pub open spec fn has_region(rs: Seq<RegionModel>, a: int) -> bool {
    exists|i: int| 0 <= i < rs.len() && region_contains(#[trigger] rs[i], a)
}

/// Index of the region covering `a`; meaningful only when `has_region` holds,
/// and unique under `space_wf`.
pub open spec fn region_of(rs: Seq<RegionModel>, a: int) -> int {
    choose|i: int| 0 <= i < rs.len() && region_contains(#[trigger] rs[i], a)
}

/// Protection at address `a`; `Invalid` where nothing is committed.
pub open spec fn prot_at(rs: Seq<RegionModel>, a: int) -> Protections {
    if has_region(rs, a) {
        rs[region_of(rs, a)].prot
    } else {
        Protections::Invalid
    }
}

/// The byte committed at address `a`; meaningful only when `has_region` holds.
pub open spec fn byte_at(rs: Seq<RegionModel>, a: int) -> u8 {
    rs[region_of(rs, a)].bytes[a - rs[region_of(rs, a)].base]
}

/// Whether `[a, a + sz)` lies inside one committed region.
pub open spec fn range_in(rs: Seq<RegionModel>, a: int, sz: int) -> bool {
    has_region(rs, a) && a + sz <= region_end(rs[region_of(rs, a)])
}

/// Whether `[a, a + sz)` is readable committed memory.
pub open spec fn range_readable(rs: Seq<RegionModel>, a: int, sz: int) -> bool {
    range_in(rs, a, sz) && prot_at(rs, a).spec_readable()
}

/// Whether `[a, a + sz)` is writable committed memory.
pub open spec fn range_writable(rs: Seq<RegionModel>, a: int, sz: int) -> bool {
    range_in(rs, a, sz) && prot_at(rs, a).spec_writable()
}

/// The `n` bytes committed from address `a` on.
pub open spec fn bytes_at(rs: Seq<RegionModel>, a: int, n: int) -> Seq<u8> {
    Seq::new(n as nat, |j: int| byte_at(rs, a + j))
}

/// Whether `[a, a + sz)` overlaps no committed region.
pub open spec fn range_free(rs: Seq<RegionModel>, a: int, sz: int) -> bool {
    forall|i: int|
        0 <= i < rs.len() ==> (a + sz <= (#[trigger] rs[i]).base || region_end(rs[i]) <= a)
}

/// `s` with `data` laid over it starting at offset `off`.
pub open spec fn overlay(s: Seq<u8>, off: int, data: Seq<u8>) -> Seq<u8> {
    Seq::new(s.len(), |j: int| if off <= j < off + data.len() { data[j - off] } else { s[j] })
}

/// The space after writing `data` at address `a` inside the region covering `a`.
pub open spec fn store_bytes(rs: Seq<RegionModel>, a: int, data: Seq<u8>) -> Seq<RegionModel> {
    let i = region_of(rs, a);
    rs.update(
        i,
        RegionModel {
            base: rs[i].base,
            prot: rs[i].prot,
            bytes: overlay(rs[i].bytes, a - rs[i].base, data),
        },
    )
}

/// The space after changing the protection of the region covering `a` to `p`.
pub open spec fn set_prot(rs: Seq<RegionModel>, a: int, p: Protections) -> Seq<RegionModel> {
    let i = region_of(rs, a);
    rs.update(i, RegionModel { base: rs[i].base, prot: p, bytes: rs[i].bytes })
}

/// A sequence of `n` zero bytes.
pub open spec fn zero_bytes(n: int) -> Seq<u8> {
    Seq::new(n as nat, |j: int| 0u8)
}

/// The bump address: the least address at or above `ALLOC_BASE` past the end
/// of every committed region.
pub open spec fn alloc_cursor(rs: Seq<RegionModel>) -> int
    decreases rs.len(),
{
    if rs.len() == 0 {
        ALLOC_BASE as int
    } else {
        let m = alloc_cursor(rs.drop_last());
        let e = region_end(rs.last());
        if e > m {
            e
        } else {
            m
        }
    }
}

/// Whether an allocation hint can be honored as given.
pub open spec fn hint_usable(rs: Seq<RegionModel>, h: int, sz: int) -> bool {
    h + sz <= usize::MAX as int && range_free(rs, h, sz)
}

/// The address an allocation of `sz` bytes commits at: the hint where it is
/// free, the bump address otherwise, and nothing when `sz` is zero or the
/// space is exhausted.
pub open spec fn alloc_addr(rs: Seq<RegionModel>, hint: Option<usize>, sz: int) -> Option<int> {
    if sz <= 0 {
        None
    } else if hint is Some && hint_usable(rs, hint.unwrap() as int, sz) {
        Some(hint.unwrap() as int)
    } else if alloc_cursor(rs) + sz <= usize::MAX as int {
        Some(alloc_cursor(rs))
    } else {
        None
    }
}

/// Whether some region is exactly the prior allocation `(a, sz)`.
pub open spec fn has_alloc(rs: Seq<RegionModel>, a: int, sz: int) -> bool {
    exists|i: int|
        0 <= i < rs.len() && (#[trigger] rs[i]).base == a && rs[i].bytes.len() == sz
}

/// Index of the region that is exactly the allocation `(a, sz)`; unique under
/// `space_wf`.
pub open spec fn free_index(rs: Seq<RegionModel>, a: int, sz: int) -> int {
    choose|i: int|
        0 <= i < rs.len() && (#[trigger] rs[i]).base == a && rs[i].bytes.len() == sz
}

/// The space after releasing the allocation `(a, sz)`; unchanged when no such
/// allocation exists.
pub open spec fn free_spec(rs: Seq<RegionModel>, a: int, sz: int) -> Seq<RegionModel> {
    if has_alloc(rs, a, sz) {
        rs.remove(free_index(rs, a, sz))
    } else {
        rs
    }
}

/// Under `space_wf`, the region covering an address is unique.
pub proof fn lemma_region_of_unique(rs: Seq<RegionModel>, a: int, i: int)
    requires
        space_wf(rs),
        0 <= i < rs.len(),
        region_contains(rs[i], a),
    ensures
        has_region(rs, a),
        region_of(rs, a) == i,
{
    assert(has_region(rs, a));
    let j = region_of(rs, a);
    assert(0 <= j < rs.len() && region_contains(rs[j], a));
    if i != j {
        assert(regions_disjoint(rs[i], rs[j]));
    }
}

/// Under `space_wf`, the region that is exactly a given allocation is unique.
pub proof fn lemma_free_index_unique(rs: Seq<RegionModel>, a: int, sz: int, i: int)
    requires
        space_wf(rs),
        0 <= i < rs.len(),
        rs[i].base == a,
        rs[i].bytes.len() == sz,
    ensures
        has_alloc(rs, a, sz),
        free_index(rs, a, sz) == i,
{
    assert(has_alloc(rs, a, sz));
    let j = free_index(rs, a, sz);
    assert(0 <= j < rs.len() && rs[j].base == a && rs[j].bytes.len() == sz);
    if i != j {
        assert(regions_disjoint(rs[i], rs[j]));
    }
}

/// Two spaces whose regions have the same extents are together well-formed.
proof fn lemma_wf_same_extents(rs1: Seq<RegionModel>, rs2: Seq<RegionModel>)
    requires
        space_wf(rs1),
        rs1.len() == rs2.len(),
        forall|i: int|
            0 <= i < rs1.len() ==> (#[trigger] rs2[i]).base == rs1[i].base && rs2[i].bytes.len()
                == rs1[i].bytes.len(),
    ensures
        space_wf(rs2),
{
    assert forall|i: int, j: int|
        0 <= i < rs2.len() && 0 <= j < rs2.len() && i != j implies regions_disjoint(
        #[trigger] rs2[i],
        #[trigger] rs2[j],
    ) by {
        assert(regions_disjoint(rs1[i], rs1[j]));
    }
}

/// Removing a region keeps a space well-formed.
pub proof fn lemma_wf_remove(rs: Seq<RegionModel>, i: int)
    requires
        space_wf(rs),
        0 <= i < rs.len(),
    ensures
        space_wf(rs.remove(i)),
{
    let rs2 = rs.remove(i);
    assert forall|k: int| 0 <= k < rs2.len() implies 0 < (#[trigger] rs2[k]).bytes.len() && 0
        <= rs2[k].base && region_end(rs2[k]) <= usize::MAX as int by {
        if k < i {
            assert(rs2[k] == rs[k]);
        } else {
            assert(rs2[k] == rs[k + 1]);
        }
    }
    assert forall|k: int, l: int|
        0 <= k < rs2.len() && 0 <= l < rs2.len() && k != l implies regions_disjoint(
        #[trigger] rs2[k],
        #[trigger] rs2[l],
    ) by {
        let k0: int = if k < i { k } else { k + 1 };
        let l0: int = if l < i { l } else { l + 1 };
        assert(rs2[k] == rs[k0]);
        assert(rs2[l] == rs[l0]);
        assert(regions_disjoint(rs[k0], rs[l0]));
    }
}

/// The bump address sits at or above `ALLOC_BASE` and past every region.
pub proof fn lemma_alloc_cursor(rs: Seq<RegionModel>)
    ensures
        ALLOC_BASE as int <= alloc_cursor(rs),
        forall|i: int| 0 <= i < rs.len() ==> region_end(#[trigger] rs[i]) <= alloc_cursor(rs),
    decreases rs.len(),
{
    if rs.len() > 0 {
        lemma_alloc_cursor(rs.drop_last());
        assert forall|i: int|
            0 <= i < rs.len() implies region_end(#[trigger] rs[i]) <= alloc_cursor(rs) by {
            if i < rs.len() - 1 {
                assert(rs.drop_last()[i] == rs[i]);
                assert(region_end(rs[i]) <= alloc_cursor(rs.drop_last()));
            }
        }
    }
}

/// What a write leaves in place: the stored bytes appear at their addresses,
/// everything else — bytes elsewhere, every region's extent and protection —
/// stays as it was.
pub proof fn lemma_store_bytes(rs: Seq<RegionModel>, a: int, data: Seq<u8>)
    requires
        space_wf(rs),
        range_in(rs, a, data.len() as int),
    ensures
        space_wf(store_bytes(rs, a, data)),
        store_bytes(rs, a, data).len() == rs.len(),
        forall|x: int| has_region(store_bytes(rs, a, data), x) == has_region(rs, x),
        forall|x: int|
            has_region(rs, x) ==> region_of(store_bytes(rs, a, data), x) == region_of(rs, x),
        forall|x: int| prot_at(store_bytes(rs, a, data), x) == prot_at(rs, x),
        forall|x: int, sz: int| range_in(store_bytes(rs, a, data), x, sz) == range_in(rs, x, sz),
        forall|x: int|
            a <= x < a + data.len() ==> byte_at(store_bytes(rs, a, data), x) == data[x - a],
        forall|x: int|
            has_region(rs, x) && !(a <= x < a + data.len()) ==> byte_at(
                store_bytes(rs, a, data),
                x,
            ) == byte_at(rs, x),
{
    let i = region_of(rs, a);
    assert(0 <= i < rs.len() && region_contains(rs[i], a));
    let rs2 = store_bytes(rs, a, data);
    assert(rs2.len() == rs.len());
    assert(forall|k: int| 0 <= k < rs.len() && k != i ==> rs2[k] == rs[k]);
    assert(rs2[i].base == rs[i].base && rs2[i].prot == rs[i].prot);
    assert(rs2[i].bytes.len() == rs[i].bytes.len());
    lemma_wf_same_extents(rs, rs2);
    assert forall|x: int| has_region(rs2, x) == has_region(rs, x) by {
        if has_region(rs, x) {
            let k = region_of(rs, x);
            assert(region_contains(rs2[k], x));
            assert(has_region(rs2, x));
        }
        if has_region(rs2, x) {
            let k = region_of(rs2, x);
            assert(region_contains(rs[k], x));
            assert(has_region(rs, x));
        }
    }
    assert forall|x: int| has_region(rs, x) implies region_of(rs2, x) == region_of(rs, x) by {
        let k = region_of(rs, x);
        assert(region_contains(rs2[k], x));
        lemma_region_of_unique(rs2, x, k);
    }
    assert forall|x: int| prot_at(rs2, x) == prot_at(rs, x) by {
        if has_region(rs, x) {
            let k = region_of(rs, x);
            assert(rs2[k].prot == rs[k].prot);
        }
    }
    assert forall|x: int, sz: int| range_in(rs2, x, sz) == range_in(rs, x, sz) by {
        if has_region(rs, x) {
            let k = region_of(rs, x);
            assert(region_end(rs2[k]) == region_end(rs[k]));
        }
    }
    assert forall|x: int| a <= x < a + data.len() implies byte_at(rs2, x) == data[x - a] by {
        assert(region_contains(rs[i], x));
        lemma_region_of_unique(rs, x, i);
        lemma_region_of_unique(rs2, x, i);
        assert(rs2[i].bytes[x - rs[i].base] == data[x - a]);
    }
    assert forall|x: int|
        has_region(rs, x) && !(a <= x < a + data.len()) implies byte_at(rs2, x) == byte_at(
        rs,
        x,
    ) by {
        let k = region_of(rs, x);
        assert(region_contains(rs2[k], x));
        lemma_region_of_unique(rs2, x, k);
        if k == i {
            assert(!(a - rs[i].base <= x - rs[i].base < a - rs[i].base + data.len()));
            assert(rs2[i].bytes[x - rs[i].base] == rs[i].bytes[x - rs[i].base]);
        }
    }
}

/// What a protection change leaves in place: the covering region takes the
/// new protection, everything else — extents, bytes, other regions — stays.
pub proof fn lemma_set_prot(rs: Seq<RegionModel>, a: int, p: Protections)
    requires
        space_wf(rs),
        has_region(rs, a),
    ensures
        space_wf(set_prot(rs, a, p)),
        set_prot(rs, a, p).len() == rs.len(),
        forall|x: int| has_region(set_prot(rs, a, p), x) == has_region(rs, x),
        forall|x: int| has_region(rs, x) ==> region_of(set_prot(rs, a, p), x) == region_of(rs, x),
        forall|x: int, sz: int| range_in(set_prot(rs, a, p), x, sz) == range_in(rs, x, sz),
        forall|x: int| has_region(rs, x) ==> byte_at(set_prot(rs, a, p), x) == byte_at(rs, x),
        forall|x: int|
            has_region(rs, x) && region_of(rs, x) == region_of(rs, a) ==> prot_at(
                set_prot(rs, a, p),
                x,
            ) == p,
        forall|x: int|
            has_region(rs, x) && region_of(rs, x) != region_of(rs, a) ==> prot_at(
                set_prot(rs, a, p),
                x,
            ) == prot_at(rs, x),
{
    let i = region_of(rs, a);
    assert(0 <= i < rs.len() && region_contains(rs[i], a));
    let rs2 = set_prot(rs, a, p);
    assert(forall|k: int| 0 <= k < rs.len() && k != i ==> rs2[k] == rs[k]);
    assert(rs2[i].base == rs[i].base && rs2[i].bytes == rs[i].bytes);
    lemma_wf_same_extents(rs, rs2);
    assert forall|x: int| has_region(rs2, x) == has_region(rs, x) by {
        if has_region(rs, x) {
            let k = region_of(rs, x);
            assert(region_contains(rs2[k], x));
        }
        if has_region(rs2, x) {
            let k = region_of(rs2, x);
            assert(region_contains(rs[k], x));
            assert(has_region(rs, x));
        }
    }
    assert forall|x: int| has_region(rs, x) implies region_of(rs2, x) == region_of(rs, x) by {
        let k = region_of(rs, x);
        assert(region_contains(rs2[k], x));
        lemma_region_of_unique(rs2, x, k);
    }
    assert forall|x: int, sz: int| range_in(rs2, x, sz) == range_in(rs, x, sz) by {
        if has_region(rs, x) {
            let k = region_of(rs, x);
            assert(region_end(rs2[k]) == region_end(rs[k]));
        }
    }
    assert forall|x: int| has_region(rs, x) implies byte_at(rs2, x) == byte_at(rs, x) by {
        let k = region_of(rs, x);
        assert(rs2[k].bytes == rs[k].bytes && rs2[k].base == rs[k].base);
    }
}

/// OS-reported metadata describing the mapping around an address.
#[derive(Clone, Copy, Debug, PartialEq, Eq, Structural)]
pub struct RegionInfo {
    /// base address of the mapping, or the probed address itself where
    /// nothing is committed
    pub base: usize,
    /// size of the mapping in bytes; zero where nothing is committed
    pub size: usize,
    /// protection of the mapping; `Invalid` where nothing is committed
    pub protection: Protections,
}

/// A modeled address space: the state every memory capability operation
/// acts on. Platform backends realize the same contracts against a live
/// process; this type realizes them against explicit state, so the shared
/// behaviour is proved once.
#[derive(Debug)]
pub struct Memory {
    regions: Vec<Region>,
}

impl View for Memory {
    type V = Seq<RegionModel>;

    closed spec fn view(&self) -> Seq<RegionModel> {
        Seq::new(
            self.regions@.len(),
            |i: int|
                RegionModel {
                    base: self.regions@[i].base as int,
                    prot: self.regions@[i].prot,
                    bytes: self.regions@[i].bytes@,
                },
        )
    }
}

impl Memory {
    /// Well-formedness: the modeled regions never overlap.
    pub open spec fn wf(&self) -> bool {
        space_wf(self@)
    }

    /// An address space with nothing committed.
    pub fn new() -> (m: Memory)
        ensures
            m.wf(),
            m@.len() == 0,
    {
        Memory { regions: Vec::new() }
    }

    /// Index of the committed region covering `addr`, if any.
    fn find_region(&self, addr: usize) -> (r: Option<usize>)
        requires
            self.wf(),
        ensures
            r matches Some(i) ==> i < self@.len() && region_contains(self@[i as int], addr as int)
                && region_of(self@, addr as int) == i && has_region(self@, addr as int),
            r is None ==> !has_region(self@, addr as int),
    {
        let mut i: usize = 0;
        while i < self.regions.len()
            invariant
                self.wf(),
                i <= self.regions.len(),
                self.regions@.len() == self@.len(),
                forall|k: int| 0 <= k < i ==> !region_contains(self@[k], addr as int),
            decreases self.regions.len() - i,
        {
            let rg = &self.regions[i];
            if rg.base <= addr && addr - rg.base < rg.bytes.len() {
                proof {
                    assert(region_contains(self@[i as int], addr as int));
                    lemma_region_of_unique(self@, addr as int, i as int);
                }
                return Some(i);
            }
            i += 1;
        }
        None
    }

    /// Copies `size` bytes out of the space, starting at `addr`.
    ///
    /// Succeeds exactly when the whole range lies in one committed, readable
    /// region, and then returns those bytes; otherwise the read fails.
    pub fn raw_read(&self, addr: usize, size: usize) -> (r: Result<Vec<u8>, MemError>)
        requires
            self.wf(),
        ensures
            r is Ok <==> range_readable(self@, addr as int, size as int),
            r matches Ok(v) ==> v@ == bytes_at(self@, addr as int, size as int),
            r matches Err(e) ==> e == MemError::ReadFailure(addr),
    {
        match self.find_region(addr) {
            None => Err(MemError::ReadFailure(addr)),
            Some(i) => {
                let rg = &self.regions[i];
                let off = addr - rg.base;
                if !rg.prot.is_readable() {
                    return Err(MemError::ReadFailure(addr));
                }
                if size > rg.bytes.len() - off {
                    return Err(MemError::ReadFailure(addr));
                }
                let mut out: Vec<u8> = Vec::new();
                let mut j: usize = 0;
                while j < size
                    invariant
                        self.wf(),
                        i < self@.len(),
                        region_of(self@, addr as int) == i,
                        region_contains(self@[i as int], addr as int),
                        rg == self.regions@[i as int],
                        off == addr - rg.base,
                        off + size <= rg.bytes@.len(),
                        j <= size,
                        out@.len() == j,
                        forall|k: int| 0 <= k < j ==> out@[k] == rg.bytes@[off + k],
                    decreases size - j,
                {
                    out.push(rg.bytes[off + j]);
                    j += 1;
                }
                proof {
                    assert forall|k: int| 0 <= k < size implies out@[k] == byte_at(
                        self@,
                        addr + k,
                    ) by {
                        assert(region_contains(self@[i as int], addr + k));
                        lemma_region_of_unique(self@, addr + k, i as int);
                    }
                    assert(out@ =~= bytes_at(self@, addr as int, size as int));
                }
                Ok(out)
            },
        }
    }

    /// Copies `data` into the space at `addr`.
    ///
    /// Succeeds exactly when the whole range lies in one committed, writable
    /// region, and then the space holds `data` at `addr` and is unchanged
    /// everywhere else; a failed write changes nothing.
    pub fn raw_write(&mut self, addr: usize, data: &[u8]) -> (r: Result<(), MemError>)
        requires
            old(self).wf(),
        ensures
            final(self).wf(),
            r is Ok <==> range_writable(old(self)@, addr as int, data@.len() as int),
            r is Ok ==> final(self)@ == store_bytes(old(self)@, addr as int, data@),
            r is Err ==> final(self)@ == old(self)@,
            r matches Err(e) ==> e == MemError::WriteFailure(addr),
    {
        let idx = match self.find_region(addr) {
            None => {
                return Err(MemError::WriteFailure(addr));
            },
            Some(i) => i,
        };
        let off = addr - self.regions[idx].base;
        if !self.regions[idx].prot.is_writable() {
            return Err(MemError::WriteFailure(addr));
        }
        if data.len() > self.regions[idx].bytes.len() - off {
            return Err(MemError::WriteFailure(addr));
        }
        let ghost rs0 = self@;
        let mut rg = self.regions.remove(idx);
        let ghost regs1 = self.regions@;
        let ghost orig = rg.bytes@;
        let mut j: usize = 0;
        while j < data.len()
            invariant
                self.regions@ == regs1,
                off + data@.len() <= usize::MAX as int,
                idx < rs0.len(),
                region_of(rs0, addr as int) == idx,
                rg.base == rs0[idx as int].base,
                rg.prot == rs0[idx as int].prot,
                off == addr - rg.base,
                orig == rs0[idx as int].bytes,
                off + data@.len() <= orig.len(),
                rg.bytes@.len() == orig.len(),
                j <= data@.len(),
                forall|k: int| off <= k < off + j ==> rg.bytes@[k] == data@[k - off],
                forall|k: int|
                    0 <= k < orig.len() && !(off <= k < off + j) ==> rg.bytes@[k] == orig[k],
            decreases data.len() - j,
        {
            rg.bytes[off + j] = data[j];
            j += 1;
        }
        proof {
            assert(rg.bytes@ =~= overlay(orig, off as int, data@));
        }
        self.regions.insert(idx, rg);
        proof {
            assert(self@ =~= store_bytes(rs0, addr as int, data@));
            lemma_store_bytes(rs0, addr as int, data@);
        }
        Ok(())
    }

    /// Changes the protection of the region covering `addr` to `prot` and
    /// returns the protection it held immediately before.
    ///
    /// Succeeds exactly when `[addr, addr + size)` lies in one committed
    /// region; the change applies to that whole region. A failed call
    /// changes nothing.
    pub fn alter_protection(&mut self, addr: usize, size: usize, prot: Protections) -> (r: Result<
        Protections,
        MemError,
    >)
        requires
            old(self).wf(),
        ensures
            final(self).wf(),
            r is Ok <==> range_in(old(self)@, addr as int, size as int),
            r matches Ok(p) ==> p == prot_at(old(self)@, addr as int) && final(self)@ == set_prot(
                old(self)@,
                addr as int,
                prot,
            ),
            r is Err ==> final(self)@ == old(self)@,
            r matches Err(e) ==> e == MemError::ProtectFailure(addr, size, prot),
    {
        let idx = match self.find_region(addr) {
            None => {
                return Err(MemError::ProtectFailure(addr, size, prot));
            },
            Some(i) => i,
        };
        let off = addr - self.regions[idx].base;
        if size > self.regions[idx].bytes.len() - off {
            return Err(MemError::ProtectFailure(addr, size, prot));
        }
        let ghost rs0 = self@;
        let mut rg = self.regions.remove(idx);
        let old_prot = rg.prot;
        rg.prot = prot;
        self.regions.insert(idx, rg);
        proof {
            assert(self@ =~= set_prot(rs0, addr as int, prot));
            lemma_set_prot(rs0, addr as int, prot);
        }
        Ok(old_prot)
    }

    /// Whether `[addr, addr + size)` overlaps no committed region.
    fn range_is_free(&self, addr: usize, size: usize) -> (r: bool)
        requires
            self.wf(),
            addr + size <= usize::MAX as int,
        ensures
            r == range_free(self@, addr as int, size as int),
    {
        let mut i: usize = 0;
        while i < self.regions.len()
            invariant
                self.wf(),
                addr + size <= usize::MAX as int,
                i <= self.regions.len(),
                self.regions@.len() == self@.len(),
                forall|k: int|
                    0 <= k < i ==> (addr + size <= (#[trigger] self@[k]).base || region_end(
                        self@[k],
                    ) <= addr as int),
            decreases self.regions.len() - i,
        {
            let rg = &self.regions[i];
            proof {
                assert(region_end(self@[i as int]) <= usize::MAX as int);
            }
            if !(addr + size <= rg.base || rg.base + rg.bytes.len() <= addr) {
                proof {
                    assert(!(addr + size <= self@[i as int].base || region_end(self@[i as int])
                        <= addr as int));
                    assert(!range_free(self@, addr as int, size as int));
                }
                return false;
            }
            i += 1;
        }
        true
    }

    /// The bump address of the space.
    fn cursor(&self) -> (r: usize)
        requires
            self.wf(),
        ensures
            r as int == alloc_cursor(self@),
    {
        let mut m: usize = ALLOC_BASE;
        let mut i: usize = 0;
        proof {
            assert(self@.take(0) =~= Seq::<RegionModel>::empty());
        }
        while i < self.regions.len()
            invariant
                self.wf(),
                i <= self.regions.len(),
                self.regions@.len() == self@.len(),
                m as int == alloc_cursor(self@.take(i as int)),
            decreases self.regions.len() - i,
        {
            let rg = &self.regions[i];
            proof {
                assert(region_end(self@[i as int]) <= usize::MAX as int);
            }
            let e = rg.base + rg.bytes.len();
            proof {
                assert(self@.take(i + 1).drop_last() =~= self@.take(i as int));
                assert(self@.take(i + 1).last() == self@[i as int]);
            }
            if e > m {
                m = e;
            }
            i += 1;
        }
        proof {
            assert(self@.take(self@.len() as int) =~= self@);
        }
        m
    }

    /// Commits `size` fresh zeroed bytes under protection `prot`.
    ///
    /// The hint is honored when it names a free range; otherwise the space
    /// chooses the bump address. Fails exactly when `size` is zero or no
    /// address fits, and then changes nothing.
    pub fn raw_virtual_alloc(
        &mut self,
        addr_hint: Option<usize>,
        size: usize,
        prot: Protections,
    ) -> (r: Result<usize, MemError>)
        requires
            old(self).wf(),
        ensures
            final(self).wf(),
            r is Ok <==> alloc_addr(old(self)@, addr_hint, size as int) is Some,
            r matches Ok(a) ==> Some(a as int) == alloc_addr(old(self)@, addr_hint, size as int)
                && final(self)@ == old(self)@.push(
                RegionModel { base: a as int, prot, bytes: zero_bytes(size as int) },
            ),
            r is Err ==> final(self)@ == old(self)@,
            r matches Err(e) ==> e == MemError::AllocFailure(size, addr_hint),
    {
        if size == 0 {
            return Err(MemError::AllocFailure(size, addr_hint));
        }
        let base: usize = match addr_hint {
            Some(h) if h <= usize::MAX - size && self.range_is_free(h, size) => h,
            _ => {
                let b = self.cursor();
                proof {
                    lemma_alloc_cursor(self@);
                }
                if b > usize::MAX - size {
                    return Err(MemError::AllocFailure(size, addr_hint));
                }
                b
            },
        };
        proof {
            lemma_alloc_cursor(self@);
        }
        let mut bytes: Vec<u8> = Vec::new();
        let mut j: usize = 0;
        while j < size
            invariant
                self@ == old(self)@,
                self.wf(),
                j <= size,
                bytes@.len() == j,
                forall|k: int| 0 <= k < j ==> bytes@[k] == 0u8,
            decreases size - j,
        {
            bytes.push(0u8);
            j += 1;
        }
        proof {
            assert(bytes@ =~= zero_bytes(size as int));
        }
        let ghost rs0 = self@;
        self.regions.push(Region { base, prot, bytes });
        proof {
            let m = RegionModel { base: base as int, prot, bytes: zero_bytes(size as int) };
            assert(self@ =~= rs0.push(m));
            assert forall|k: int|
                0 <= k < rs0.len() implies regions_disjoint(rs0[k], m) by {
                assert(region_end(rs0[k]) <= alloc_cursor(rs0));
            }
            assert forall|i: int, l: int|
                0 <= i < self@.len() && 0 <= l < self@.len() && i != l implies regions_disjoint(
                #[trigger] self@[i],
                #[trigger] self@[l],
            ) by {
                if i < rs0.len() && l < rs0.len() {
                    assert(regions_disjoint(rs0[i], rs0[l]));
                }
            }
        }
        Ok(base)
    }

    /// Releases the prior allocation `(addr, size)`.
    ///
    /// Succeeds exactly when some region is that allocation, base and size
    /// both matching; the region is then gone. A failed call changes nothing.
    pub fn raw_virtual_free(&mut self, addr: usize, size: usize) -> (r: Result<(), MemError>)
        requires
            old(self).wf(),
        ensures
            final(self).wf(),
            r is Ok <==> has_alloc(old(self)@, addr as int, size as int),
            final(self)@ == free_spec(old(self)@, addr as int, size as int),
            r matches Err(e) ==> e == MemError::FreeFailure(addr, size),
    {
        let mut i: usize = 0;
        while i < self.regions.len()
            invariant
                self@ == old(self)@,
                self.wf(),
                i <= self.regions.len(),
                self.regions@.len() == self@.len(),
                forall|k: int|
                    0 <= k < i ==> !((#[trigger] self@[k]).base == addr as int && self@[k].bytes.len()
                        == size as int),
            decreases self.regions.len() - i,
        {
            let rg = &self.regions[i];
            if rg.base == addr && rg.bytes.len() == size {
                proof {
                    lemma_free_index_unique(self@, addr as int, size as int, i as int);
                    lemma_wf_remove(self@, i as int);
                }
                let ghost rs0 = self@;
                self.regions.remove(i);
                proof {
                    assert(self@ =~= rs0.remove(i as int));
                }
                return Ok(());
            }
            i += 1;
        }
        Err(MemError::FreeFailure(addr, size))
    }

    /// Reports the region covering `addr`. Never fails: where nothing is
    /// committed the probe yields a degenerate descriptor of size zero
    /// under `Invalid` protection.
    pub fn raw_query(&self, addr: usize) -> (info: RegionInfo)
        requires
            self.wf(),
        ensures
            has_region(self@, addr as int) ==> info.base == self@[region_of(self@, addr as int)].base
                && info.size == self@[region_of(self@, addr as int)].bytes.len() && info.protection
                == self@[region_of(self@, addr as int)].prot,
            !has_region(self@, addr as int) ==> info == (RegionInfo {
                base: addr,
                size: 0,
                protection: Protections::Invalid,
            }),
    {
        match self.find_region(addr) {
            Some(i) => {
                let rg = &self.regions[i];
                RegionInfo { base: rg.base, size: rg.bytes.len(), protection: rg.prot }
            },
            None => RegionInfo { base: addr, size: 0, protection: Protections::Invalid },
        }
    }
}

impl Clone for Memory {
    /// Duplicates the modeled space; both copies evolve independently.
    fn clone(&self) -> (r: Self)
        ensures
            r@ == self@,
    {
        let mut regions: Vec<Region> = Vec::new();
        let mut i: usize = 0;
        while i < self.regions.len()
            invariant
                i <= self.regions.len(),
                regions@.len() == i,
                forall|k: int|
                    0 <= k < i ==> (#[trigger] regions@[k]).base == self.regions@[k].base
                        && regions@[k].prot == self.regions@[k].prot && regions@[k].bytes@
                        == self.regions@[k].bytes@,
            decreases self.regions.len() - i,
        {
            let rg = &self.regions[i];
            let mut bytes: Vec<u8> = Vec::new();
            let mut j: usize = 0;
            while j < rg.bytes.len()
                invariant
                    j <= rg.bytes@.len(),
                    bytes@.len() == j,
                    forall|k: int| 0 <= k < j ==> bytes@[k] == rg.bytes@[k],
                decreases rg.bytes.len() - j,
            {
                bytes.push(rg.bytes[j]);
                j += 1;
            }
            proof {
                assert(bytes@ =~= rg.bytes@);
            }
            regions.push(Region { base: rg.base, prot: rg.prot, bytes });
            i += 1;
        }
        let r = Memory { regions };
        proof {
            assert(r@ =~= self@);
        }
        r
    }
}

} // verus!
