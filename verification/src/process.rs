use vstd::prelude::*;
use vstd::string::StrSliceExecFns;
use vstd::arithmetic::div_mod::{lemma_div_denominator, lemma_div_is_ordered, lemma_fundamental_div_mod};
use crate::errors::{MemError, ModuleError, ProcListError, ProcessError, ScanError, U32OrString};
use crate::memory::{
    bytes_at, free_spec, has_region, range_readable, range_writable, region_end, region_of,
    store_bytes, set_prot, alloc_addr, zero_bytes, space_wf, Memory, RegionInfo, RegionModel,
};
use crate::protections::Protections;
use crate::sigscan::{cells_of, matches_at, pattern_wf, Pattern};

verus! {

/// One running process as the platform's process enumerator reports it.
#[derive(Debug, Clone)]
pub struct ProcessEntry {
    /// process id
    pub pid: u32,
    /// executable path or name
    pub exe_path: String,
}

/// A snapshot of the running processes. The library holds the snapshot as
/// data; taking it is the platform enumerator's work, so a frontend fills
/// the entries from its own listing.
#[derive(Debug, Clone)]
pub struct ProcessList {
    /// the processes the snapshot holds
    pub entries: Vec<ProcessEntry>,
}

impl ProcessList {
    /// A fresh, empty snapshot. The library itself performs no enumeration:
    /// a platform frontend extends the entries from what its own listing
    /// reports before handing the snapshot on.
    pub fn get_list() -> (r: Result<ProcessList, ProcListError>)
        ensures
            r is Ok,
            r matches Ok(l) ==> l.entries@.len() == 0,
    {
        Ok(ProcessList { entries: Vec::new() })
    }
}

/// One loaded image as the platform's module enumerator reports it.
#[derive(Debug, Clone)]
pub struct ModuleEntry {
    /// module name
    pub name: String,
    /// base address of the image
    pub base_address: usize,
    /// size of the image in bytes
    pub size: usize,
    /// native module reference
    pub handle: usize,
}

/// The value four little-endian bytes encode.
pub open spec fn u32_of_le(b0: u8, b1: u8, b2: u8, b3: u8) -> int {
    b0 + 0x100 * b1 + 0x10000 * b2 + 0x1000000 * b3
}

/// The four little-endian bytes of a value.
pub open spec fn u32_le_bytes(v: u32) -> Seq<u8> {
    seq![
        (v as int % 0x100) as u8,
        (v as int / 0x100 % 0x100) as u8,
        (v as int / 0x10000 % 0x100) as u8,
        (v as int / 0x1000000) as u8,
    ]
}

/// The value eight little-endian bytes encode.
pub open spec fn u64_of_le(bs: Seq<u8>) -> int {
    bs[0] + 0x100 * bs[1] + 0x10000 * bs[2] + 0x1000000 * bs[3] + 0x100000000 * bs[4]
        + 0x10000000000 * bs[5] + 0x1000000000000 * bs[6] + 0x100000000000000 * bs[7]
}

/// The eight little-endian bytes of a value.
pub open spec fn u64_le_bytes(v: u64) -> Seq<u8> {
    seq![
        (v as int % 0x100) as u8,
        (v as int / 0x100 % 0x100) as u8,
        (v as int / 0x10000 % 0x100) as u8,
        (v as int / 0x1000000 % 0x100) as u8,
        (v as int / 0x100000000 % 0x100) as u8,
        (v as int / 0x10000000000 % 0x100) as u8,
        (v as int / 0x1000000000000 % 0x100) as u8,
        (v as int / 0x100000000000000) as u8,
    ]
}

/// Law: a value survives the round trip through its eight little-endian
/// bytes.
pub proof fn lemma_u64_le_roundtrip(v: u64)
    ensures
        u64_of_le(u64_le_bytes(v)) == v as int,
{
    let x = v as int;
    lemma_fundamental_div_mod(x, 0x100);
    lemma_fundamental_div_mod(x / 0x100, 0x100);
    lemma_fundamental_div_mod(x / 0x10000, 0x100);
    lemma_fundamental_div_mod(x / 0x1000000, 0x100);
    lemma_fundamental_div_mod(x / 0x100000000, 0x100);
    lemma_fundamental_div_mod(x / 0x10000000000, 0x100);
    lemma_fundamental_div_mod(x / 0x1000000000000, 0x100);
    lemma_div_denominator(x, 0x100, 0x100);
    lemma_div_denominator(x, 0x10000, 0x100);
    lemma_div_denominator(x, 0x1000000, 0x100);
    lemma_div_denominator(x, 0x100000000, 0x100);
    lemma_div_denominator(x, 0x10000000000, 0x100);
    lemma_div_denominator(x, 0x1000000000000, 0x100);
    lemma_div_is_ordered(x, 0xFFFFFFFFFFFFFFFF, 0x100000000000000);
}

/// Law: a value survives the round trip through its little-endian bytes.
pub proof fn lemma_u32_le_roundtrip(v: u32)
    ensures
        u32_of_le(
            u32_le_bytes(v)[0],
            u32_le_bytes(v)[1],
            u32_le_bytes(v)[2],
            u32_le_bytes(v)[3],
        ) == v as int,
{
    let x = v as int;
    lemma_fundamental_div_mod(x, 0x100);
    lemma_fundamental_div_mod(x / 0x100, 0x100);
    lemma_fundamental_div_mod(x / 0x10000, 0x100);
    lemma_div_denominator(x, 0x100, 0x100);
    lemma_div_denominator(x, 0x10000, 0x100);
    lemma_div_is_ordered(x, 0xFFFFFFFF, 0x1000000);
}

/// Whether two strings hold the same characters.
fn str_eq(a: &str, b: &str) -> (r: bool)
    ensures
        r == (a@ == b@),
{
    let n = a.unicode_len();
    if n != b.unicode_len() {
        return false;
    }
    let mut i: usize = 0;
    while i < n
        invariant
            n == a@.len(),
            n == b@.len(),
            i <= n,
            forall|j: int| 0 <= j < i ==> a@[j] == b@[j],
        decreases n - i,
    {
        if a.get_char(i) != b.get_char(i) {
            return false;
        }
        i += 1;
    }
    proof {
        assert(a@ =~= b@);
    }
    true
}

/// A handle on a target process: its id, display name, and the view of the
/// address space its memory operations act on. Platform frontends realize
/// the same operations against a live process; the contracts here are
/// stated once, over the modeled space.
#[derive(Debug)]
pub struct Process {
    /// process id
    pub pid: u32,
    /// display name
    pub name: String,
    /// the modeled address space the handle's operations act on
    pub space: Memory,
}

impl Process {
    /// The modeled address space of the target.
    pub closed spec fn mem(&self) -> Seq<RegionModel> {
        self.space@
    }

    /// Well-formedness: the modeled regions never overlap.
    pub open spec fn wf(&self) -> bool {
        space_wf(self.mem())
    }

    /// finds the process from a pid; the candidate list comes from the
    /// platform's process enumerator. Fails exactly when no entry has the
    /// pid; the first such entry names the handle.
    pub fn find_from_pid(pid: u32, procs: &Vec<ProcessEntry>) -> (r: Result<Process, ProcessError>)
        ensures
            r is Ok <==> exists|i: int| 0 <= i < procs@.len() && (#[trigger] procs@[i]).pid == pid,
            r matches Ok(p) ==> p.pid == pid && p.wf() && p.mem().len() == 0 && exists|i: int|
                0 <= i < procs@.len() && (#[trigger] procs@[i]).pid == pid && p.name@
                == procs@[i].exe_path@ && (forall|j: int| 0 <= j < i ==> procs@[j].pid != pid),
            r matches Err(e) ==> e == ProcessError::UnableToOpenProcess(U32OrString::U32(pid)),
    {
        let mut i: usize = 0;
        while i < procs.len()
            invariant
                i <= procs@.len(),
                forall|j: int| 0 <= j < i ==> (#[trigger] procs@[j]).pid != pid,
            decreases procs@.len() - i,
        {
            if procs[i].pid == pid {
                return Ok(
                    Process { pid, name: procs[i].exe_path.clone(), space: Memory::new() },
                );
            }
            i += 1;
        }
        Err(ProcessError::UnableToOpenProcess(U32OrString::U32(pid)))
    }

    /// finds the process from a name; the first entry whose executable path
    /// equals the name wins, and the handle is then resolved from that
    /// entry's pid — so the display name comes from the first entry carrying
    /// that pid, as the pid lookup has it. Fails exactly when no entry
    /// matches the name.
    pub fn find_by_name(name: &str, procs: &Vec<ProcessEntry>) -> (r: Result<Process, ProcessError>)
        ensures
            r is Ok <==> exists|i: int|
                0 <= i < procs@.len() && (#[trigger] procs@[i]).exe_path@ == name@,
            r matches Ok(p) ==> p.wf() && p.mem().len() == 0 && exists|i: int|
                0 <= i < procs@.len() && (#[trigger] procs@[i]).exe_path@ == name@ && p.pid
                == procs@[i].pid && (forall|j: int| 0 <= j < i ==> procs@[j].exe_path@ != name@),
            r matches Ok(p) ==> exists|k: int|
                0 <= k < procs@.len() && (#[trigger] procs@[k]).pid == p.pid && p.name@
                == procs@[k].exe_path@ && (forall|l: int| 0 <= l < k ==> procs@[l].pid != p.pid),
            r matches Err(e) ==> e matches ProcessError::UnableToFindProcess(
                U32OrString::Str(s),
            ) && s@ == name@,
    {
        let mut i: usize = 0;
        while i < procs.len()
            invariant
                i <= procs@.len(),
                forall|j: int| 0 <= j < i ==> (#[trigger] procs@[j]).exe_path@ != name@,
            decreases procs@.len() - i,
        {
            if str_eq(procs[i].exe_path.as_str(), name) {
                // the pid lookup cannot miss: the matching entry carries it
                proof {
                    assert(exists|j: int|
                        0 <= j < procs@.len() && (#[trigger] procs@[j]).pid == procs@[i as int].pid);
                }
                match Self::find_from_pid(procs[i].pid, procs) {
                    Ok(p) => {
                        return Ok(p);
                    },
                    Err(_) => {
                        return Err(
                            ProcessError::UnableToFindProcess(U32OrString::Str(name.to_owned())),
                        );
                    },
                }
            }
            i += 1;
        }
        Err(ProcessError::UnableToFindProcess(U32OrString::Str(name.to_owned())))
    }

    /// Resolves a loaded module of this process by name; the candidate list
    /// comes from the platform's module enumerator scoped to this process's
    /// pid. Fails exactly when no entry matches; the first match wins.
    pub fn get_module(&self, name: &str, mods: &Vec<ModuleEntry>) -> (r: Result<
        Module,
        ModuleError,
    >)
        ensures
            r is Ok <==> exists|i: int|
                0 <= i < mods@.len() && (#[trigger] mods@[i]).name@ == name@,
            r matches Ok(m) ==> m.owner_pid == self.pid && exists|i: int|
                0 <= i < mods@.len() && (#[trigger] mods@[i]).name@ == name@ && m.base_address
                == mods@[i].base_address && m.size == mods@[i].size && m.name@ == mods@[i].name@
                && m.handle == mods@[i].handle && (forall|j: int|
                0 <= j < i ==> mods@[j].name@ != name@),
            r matches Err(e) ==> e matches ModuleError::NoModuleFound(s) && s@ == name@,
    {
        let mut i: usize = 0;
        while i < mods.len()
            invariant
                i <= mods@.len(),
                forall|j: int| 0 <= j < i ==> (#[trigger] mods@[j]).name@ != name@,
            decreases mods@.len() - i,
        {
            if str_eq(mods[i].name.as_str(), name) {
                return Ok(
                    Module {
                        base_address: mods[i].base_address,
                        size: mods[i].size,
                        name: mods[i].name.clone(),
                        handle: mods[i].handle,
                        owner_pid: self.pid,
                    },
                );
            }
            i += 1;
        }
        Err(ModuleError::NoModuleFound(name.to_owned()))
    }

    /// Copies `size` bytes from the target's space starting at `addr`.
    pub fn raw_read(&self, addr: usize, size: usize) -> (r: Result<Vec<u8>, MemError>)
        requires
            self.wf(),
        ensures
            r is Ok <==> range_readable(self.mem(), addr as int, size as int),
            r matches Ok(v) ==> v@ == bytes_at(self.mem(), addr as int, size as int),
            r matches Err(e) ==> e == MemError::ReadFailure(addr),
    {
        self.space.raw_read(addr, size)
    }

    /// Copies `data` into the target's space at `addr`.
    pub fn raw_write(&mut self, addr: usize, data: &[u8]) -> (r: Result<(), MemError>)
        requires
            old(self).wf(),
        ensures
            final(self).wf(),
            final(self).pid == old(self).pid,
            final(self).name == old(self).name,
            r is Ok <==> range_writable(old(self).mem(), addr as int, data@.len() as int),
            r is Ok ==> final(self).mem() == store_bytes(old(self).mem(), addr as int, data@),
            r is Err ==> final(self).mem() == old(self).mem(),
            r matches Err(e) ==> e == MemError::WriteFailure(addr),
    {
        self.space.raw_write(addr, data)
    }

    /// Changes the protection of the region covering `addr` and returns the
    /// protection it held immediately before the change.
    pub fn alter_protection(&mut self, addr: usize, size: usize, prot: Protections) -> (r: Result<
        Protections,
        MemError,
    >)
        requires
            old(self).wf(),
        ensures
            final(self).wf(),
            final(self).pid == old(self).pid,
            final(self).name == old(self).name,
            r is Ok <==> crate::memory::range_in(old(self).mem(), addr as int, size as int),
            r matches Ok(p) ==> p == crate::memory::prot_at(old(self).mem(), addr as int)
                && final(self).mem() == set_prot(old(self).mem(), addr as int, prot),
            r is Err ==> final(self).mem() == old(self).mem(),
            r matches Err(e) ==> e == MemError::ProtectFailure(addr, size, prot),
    {
        self.space.alter_protection(addr, size, prot)
    }

    /// Commits `size` fresh bytes in the target's space and hands back the
    /// owning allocation handle; release goes through that handle exactly
    /// once.
    pub fn allocate(&mut self, addr_hint: Option<usize>, size: usize, prot: Protections) -> (r:
        Result<VirtAlloc, MemError>)
        requires
            old(self).wf(),
        ensures
            final(self).wf(),
            final(self).pid == old(self).pid,
            final(self).name == old(self).name,
            r is Ok <==> alloc_addr(old(self).mem(), addr_hint, size as int) is Some,
            r matches Ok(va) ==> va.pid == old(self).pid && va.size == size && !va.intrn && Some(
                va.addr as int,
            ) == alloc_addr(old(self).mem(), addr_hint, size as int) && final(self).mem() == old(
                self,
            ).mem().push(
                RegionModel { base: va.addr as int, prot, bytes: zero_bytes(size as int) },
            ),
            r is Err ==> final(self).mem() == old(self).mem(),
            r matches Err(e) ==> e == MemError::AllocFailure(size, addr_hint),
    {
        match self.space.raw_virtual_alloc(addr_hint, size, prot) {
            Ok(addr) => Ok(VirtAlloc { pid: self.pid, addr, size, intrn: false }),
            Err(e) => Err(e),
        }
    }

    /// Releases the prior allocation `(addr, size)` in the target's space.
    pub fn raw_virtual_free(&mut self, addr: usize, size: usize) -> (r: Result<(), MemError>)
        requires
            old(self).wf(),
        ensures
            final(self).wf(),
            final(self).pid == old(self).pid,
            final(self).name == old(self).name,
            r is Ok <==> crate::memory::has_alloc(old(self).mem(), addr as int, size as int),
            final(self).mem() == free_spec(old(self).mem(), addr as int, size as int),
            r matches Err(e) ==> e == MemError::FreeFailure(addr, size),
    {
        self.space.raw_virtual_free(addr, size)
    }

    /// Reports the region covering `addr`; a probe of uncommitted memory
    /// yields a degenerate descriptor rather than an error.
    pub fn raw_query(&self, addr: usize) -> (info: RegionInfo)
        requires
            self.wf(),
        ensures
            has_region(self.mem(), addr as int) ==> info.base == self.mem()[region_of(
                self.mem(),
                addr as int,
            )].base && info.size == self.mem()[region_of(self.mem(), addr as int)].bytes.len()
                && info.protection == self.mem()[region_of(self.mem(), addr as int)].prot,
            !has_region(self.mem(), addr as int) ==> info == (RegionInfo {
                base: addr,
                size: 0,
                protection: Protections::Invalid,
            }),
    {
        self.space.raw_query(addr)
    }

    /// Reads a little-endian value from four bytes at `addr`.
    pub fn read_u32(&self, addr: usize) -> (r: Result<u32, MemError>)
        requires
            self.wf(),
        ensures
            r is Ok <==> range_readable(self.mem(), addr as int, 4),
            r matches Ok(v) ==> v as int == u32_of_le(
                crate::memory::byte_at(self.mem(), addr as int),
                crate::memory::byte_at(self.mem(), addr + 1),
                crate::memory::byte_at(self.mem(), addr + 2),
                crate::memory::byte_at(self.mem(), addr + 3),
            ),
            r matches Err(e) ==> e == MemError::ReadFailure(addr),
    {
        match self.space.raw_read(addr, 4) {
            Ok(v) => {
                let b0 = v[0];
                let b1 = v[1];
                let b2 = v[2];
                let b3 = v[3];
                Ok(
                    b0 as u32 + (b1 as u32) * 0x100 + (b2 as u32) * 0x10000 + (b3 as u32)
                        * 0x1000000,
                )
            },
            Err(e) => Err(e),
        }
    }

    /// Reads a little-endian value from eight bytes at `addr`.
    pub fn read_u64(&self, addr: usize) -> (r: Result<u64, MemError>)
        requires
            self.wf(),
        ensures
            r is Ok <==> range_readable(self.mem(), addr as int, 8),
            r matches Ok(v) ==> v as int == u64_of_le(bytes_at(self.mem(), addr as int, 8)),
            r matches Err(e) ==> e == MemError::ReadFailure(addr),
    {
        match self.space.raw_read(addr, 8) {
            Ok(v) => {
                let lo = v[0] as u64 + (v[1] as u64) * 0x100 + (v[2] as u64) * 0x10000 + (
                v[3] as u64) * 0x1000000;
                let hi = v[4] as u64 + (v[5] as u64) * 0x100 + (v[6] as u64) * 0x10000 + (
                v[7] as u64) * 0x1000000;
                Ok(lo + hi * 0x100000000)
            },
            Err(e) => Err(e),
        }
    }

    /// Writes a value as eight little-endian bytes at `addr`.
    pub fn write_u64(&mut self, addr: usize, v: u64) -> (r: Result<(), MemError>)
        requires
            old(self).wf(),
        ensures
            final(self).wf(),
            final(self).pid == old(self).pid,
            final(self).name == old(self).name,
            r is Ok <==> range_writable(old(self).mem(), addr as int, 8),
            r is Ok ==> final(self).mem() == store_bytes(
                old(self).mem(),
                addr as int,
                u64_le_bytes(v),
            ),
            r is Err ==> final(self).mem() == old(self).mem(),
            r matches Err(e) ==> e == MemError::WriteFailure(addr),
    {
        let mut data: Vec<u8> = Vec::new();
        data.push((v % 0x100) as u8);
        data.push((v / 0x100 % 0x100) as u8);
        data.push((v / 0x10000 % 0x100) as u8);
        data.push((v / 0x1000000 % 0x100) as u8);
        data.push((v / 0x100000000 % 0x100) as u8);
        data.push((v / 0x10000000000 % 0x100) as u8);
        data.push((v / 0x1000000000000 % 0x100) as u8);
        data.push((v / 0x100000000000000) as u8);
        proof {
            assert(data@ =~= u64_le_bytes(v));
        }
        self.space.raw_write(addr, data.as_slice())
    }

    /// Writes a value as four little-endian bytes at `addr`.
    pub fn write_u32(&mut self, addr: usize, v: u32) -> (r: Result<(), MemError>)
        requires
            old(self).wf(),
        ensures
            final(self).wf(),
            final(self).pid == old(self).pid,
            final(self).name == old(self).name,
            r is Ok <==> range_writable(old(self).mem(), addr as int, 4),
            r is Ok ==> final(self).mem() == store_bytes(
                old(self).mem(),
                addr as int,
                u32_le_bytes(v),
            ),
            r is Err ==> final(self).mem() == old(self).mem(),
            r matches Err(e) ==> e == MemError::WriteFailure(addr),
    {
        let mut data: Vec<u8> = Vec::new();
        data.push((v % 0x100) as u8);
        data.push((v / 0x100 % 0x100) as u8);
        data.push((v / 0x10000 % 0x100) as u8);
        data.push((v / 0x1000000) as u8);
        proof {
            assert(data@ =~= u32_le_bytes(v));
        }
        self.space.raw_write(addr, data.as_slice())
    }
}

impl Clone for Process {
    /// Duplicates the handle. The duplicate carries its own copy of the
    /// modeled space; the two copies close independently.
    fn clone(&self) -> (r: Self)
        ensures
            r.pid == self.pid,
            r.name@ == self.name@,
            r.mem() == self.mem(),
    {
        Process { pid: self.pid, name: self.name.clone(), space: self.space.clone() }
    }
}

/// Allocated memory: the owning handle of one committed range. Released
/// exactly once, by `free`, which consumes the handle.
#[derive(Debug)]
pub struct VirtAlloc {
    /// id of the owning process
    pub pid: u32,
    /// address of the allocation
    pub addr: usize,
    /// size of the allocation in bytes
    pub size: usize,
    /// whether the allocation lives in the calling process's own space
    pub intrn: bool,
}

impl VirtAlloc {
    /// Free the allocated memory. Consumes the handle, so no use can follow;
    /// the underlying release is a no-op when the allocation is already
    /// gone, and its outcome is deliberately swallowed.
    pub fn free(self, proc: &mut Process)
        requires
            old(proc).wf(),
            self.pid == old(proc).pid,
        ensures
            final(proc).wf(),
            final(proc).pid == old(proc).pid,
            final(proc).name == old(proc).name,
            final(proc).mem() == free_spec(old(proc).mem(), self.addr as int, self.size as int),
    {
        let _ = proc.raw_virtual_free(self.addr, self.size);
    }

    /// Get address of allocated memory
    pub fn get_addr(&self) -> (r: usize)
        ensures
            r == self.addr,
    {
        self.addr
    }

    /// Get size of allocated memory
    pub fn get_size(&self) -> (r: usize)
        ensures
            r == self.size,
    {
        self.size
    }
}

/// A named, based, sized view into a process's address space: one loaded
/// image. The owner pid is a non-owning back-reference; operations
/// delegate to the owning handle, which the caller supplies.
#[derive(Debug)]
pub struct Module {
    /// base address of the image
    pub base_address: usize,
    /// size of the image in bytes
    pub size: usize,
    /// module name
    pub name: String,
    /// native module reference
    pub handle: usize,
    /// id of the owning process
    pub owner_pid: u32,
}

impl Module {
    /// Scans the module's image `[base, base + size)` for the first match
    /// of a wildcarded pattern and returns its absolute address. A
    /// malformed pattern fails compilation; an image range that is not
    /// readable committed memory fails the scan; a clean scan without a
    /// match is a normal `None` outcome.
    pub fn scan(&self, owner: &Process, pattern: &str) -> (r: Result<Option<usize>, ScanError>)
        requires
            owner.wf(),
        ensures
            r is Ok <==> pattern_wf(pattern@) && range_readable(
                owner.mem(),
                self.base_address as int,
                self.size as int,
            ),
            r matches Err(e) ==> e == (if pattern_wf(pattern@) {
                ScanError::UnreadableRegion(self.base_address)
            } else {
                ScanError::InvalidPattern
            }),
            r matches Ok(Some(a)) ==> self.base_address <= a && matches_at(
                bytes_at(owner.mem(), self.base_address as int, self.size as int),
                cells_of(pattern@),
                a - self.base_address,
            ) && (forall|j: int|
                0 <= j < a - self.base_address ==> !matches_at(
                    bytes_at(owner.mem(), self.base_address as int, self.size as int),
                    cells_of(pattern@),
                    j,
                )),
            r matches Ok(None) ==> forall|i: int|
                !matches_at(
                    bytes_at(owner.mem(), self.base_address as int, self.size as int),
                    cells_of(pattern@),
                    i,
                ),
    {
        let pat = match Pattern::compile(pattern) {
            Ok(p) => p,
            Err(_) => {
                return Err(ScanError::InvalidPattern);
            },
        };
        let buf = match owner.raw_read(self.base_address, self.size) {
            Ok(b) => b,
            Err(_) => {
                return Err(ScanError::UnreadableRegion(self.base_address));
            },
        };
        match pat.find(buf.as_slice()) {
            Some(off) => {
                proof {
                    let rs = owner.mem();
                    let k = region_of(rs, self.base_address as int);
                    assert(0 <= k < rs.len() && crate::memory::region_contains(
                        rs[k],
                        self.base_address as int,
                    ));
                    assert(region_end(rs[k]) <= usize::MAX as int);
                }
                Ok(Some(self.base_address + off))
            },
            None => Ok(None),
        }
    }
}

} // verus!
