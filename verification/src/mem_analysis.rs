//! The memory-layout analysis pass: a single left-to-right scan over the
//! decoded memory-info list that regroups page-level entries into
//! OS-level allocation regions, then ties each loaded module to the
//! region whose allocation base is the module's image base.
//!
//! The pass verifies the format's implicit consistency contract instead
//! of assuming it: entries must be contiguous and address-ordered,
//! unallocated entries must carry the free-memory flags, entries of one
//! allocation must agree with it, and a module's bounds must align
//! exactly with a region. Any violation is reported as corruption, never
//! skipped or coerced.

#![allow(non_snake_case)]

use vstd::prelude::*;

use crate::parse::mods_view;
use crate::strings::{parse_string, spec_parse_string};
use crate::types::{Error, MemoryInfo, Module, ModuleView};

verus! {

/// The page-state value of free (unallocated) memory.
pub const MEM_FREE: u32 = 0x00010000;

/// The region-type value of image-backed memory.
pub const MEM_IMAGE: u32 = 0x01000000;

/// The page-protection value of inaccessible memory.
pub const PAGE_NOACCESS: u32 = 0x00000001;

/// One page-protection sub-range within an allocation region.
#[derive(Clone, Copy, Debug, PartialEq, Eq, Structural)]
pub struct ProtectionRegion {
    pub BaseAddress: u64,
    pub RegionSize: u64,
    pub State: u32,
    pub Protect: u32,
    pub Type: u32,
}

/// One contiguous OS allocation unit, derived by the analysis pass: its
/// base, accumulated total size, protection, the owning module's name
/// once annotated, and its constituent protection regions in address
/// order.
#[derive(Clone, Debug)]
pub struct AllocationRegion {
    pub AllocationBase: u64,
    pub AllocationSize: u64,
    pub AllocationProtect: u32,
    pub ModuleName: Option<String>,
    pub Regions: Vec<ProtectionRegion>,
}

/// The spec-level image of an `AllocationRegion`.
#[verifier::ext_equal]
pub struct AllocationRegionView {
    pub AllocationBase: u64,
    pub AllocationSize: u64,
    pub AllocationProtect: u32,
    pub ModuleName: Option<Seq<char>>,
    pub Regions: Seq<ProtectionRegion>,
}

impl View for AllocationRegion {
    type V = AllocationRegionView;

    open spec fn view(&self) -> AllocationRegionView {
        AllocationRegionView {
            AllocationBase: self.AllocationBase,
            AllocationSize: self.AllocationSize,
            AllocationProtect: self.AllocationProtect,
            ModuleName: match self.ModuleName {
                Some(ref s) => Some(s@),
                None => None,
            },
            Regions: self.Regions@,
        }
    }
}

/// The views of a sequence of allocation regions.
pub open spec fn regions_view(s: Seq<AllocationRegion>) -> Seq<AllocationRegionView> {
    Seq::new(s.len(), |i: int| s[i]@)
}

/// The protection region an entry contributes to its allocation.
pub open spec fn spec_protection_region(info: MemoryInfo) -> ProtectionRegion {
    ProtectionRegion {
        BaseAddress: info.BaseAddress,
        RegionSize: info.RegionSize,
        State: info.State,
        Protect: info.Protect,
        Type: info.Type,
    }
}

/// Whether an entry with allocation base 0 carries exactly the flags of
/// unallocated memory.
pub open spec fn free_entry_ok(info: MemoryInfo) -> bool {
    info.AllocationProtect == 0 && info.Protect == PAGE_NOACCESS && info.State == MEM_FREE
        && info.Type == 0
}

/// One step of the analysis scan: `regions` is the output built so far,
/// `next_va` the running end address every entry's base must meet.
///
/// An entry whose base breaks contiguity is `ContiguityViolation`. An
/// entry with allocation base 0 must carry the free-memory flags
/// (`BadFreeRegion`) and contributes nothing. Any other entry joins the
/// most recently opened region when its allocation base matches it, else
/// opens a new region; it must then agree with that region's base and
/// protection and extend it without a gap, else `AllocationMismatch`.
/// An accumulated size that cannot be represented in 64 bits is likewise
/// `AllocationMismatch`.
pub open spec fn spec_alloc_step(
    regions: Seq<AllocationRegionView>,
    next_va: int,
    info: MemoryInfo,
) -> Result<(Seq<AllocationRegionView>, int), Error> {
    if info.BaseAddress != next_va {
        Err(Error::ContiguityViolation)
    } else {
        let nv = info.BaseAddress + info.RegionSize;
        if info.AllocationBase == 0 {
            if free_entry_ok(info) {
                Ok((regions, nv))
            } else {
                Err(Error::BadFreeRegion)
            }
        } else {
            let cur_base: int = if regions.len() > 0 {
                regions.last().AllocationBase as int
            } else {
                0
            };
            let regions1 = if info.AllocationBase != cur_base {
                regions.push(
                    AllocationRegionView {
                        AllocationBase: info.AllocationBase,
                        AllocationSize: 0,
                        AllocationProtect: info.AllocationProtect,
                        ModuleName: None,
                        Regions: Seq::<ProtectionRegion>::empty(),
                    },
                )
            } else {
                regions
            };
            let cur = regions1.last();
            if info.AllocationBase != cur.AllocationBase || info.AllocationProtect
                != cur.AllocationProtect || info.BaseAddress != cur.AllocationBase
                + cur.AllocationSize {
                Err(Error::AllocationMismatch)
            } else if cur.AllocationSize + info.RegionSize > u64::MAX {
                Err(Error::AllocationMismatch)
            } else {
                let updated = AllocationRegionView {
                    AllocationSize: (cur.AllocationSize + info.RegionSize) as u64,
                    Regions: cur.Regions.push(spec_protection_region(info)),
                    ..cur
                };
                Ok((regions1.update(regions1.len() - 1, updated), nv))
            }
        }
    }
}

/// The analysis scan over the first `n` entries, as a left fold seeded
/// with no regions and an expected next base address of 0.
pub open spec fn spec_alloc_fold(infos: Seq<MemoryInfo>) -> Result<
    (Seq<AllocationRegionView>, int),
    Error,
>
    decreases infos.len(),
{
    if infos.len() == 0 {
        Ok((Seq::<AllocationRegionView>::empty(), 0))
    } else {
        match spec_alloc_fold(infos.drop_last()) {
            Err(e) => Err(e),
            Ok((regions, nv)) => spec_alloc_step(regions, nv, infos.last()),
        }
    }
}

/// The allocation regions the analysis derives from a memory-info list.
pub open spec fn spec_find_allocation_regions(infos: Seq<MemoryInfo>) -> Result<
    Seq<AllocationRegionView>,
    Error,
> {
    match spec_alloc_fold(infos) {
        Err(e) => Err(e),
        Ok((regions, nv)) => Ok(regions),
    }
}

/// The fold over a prefix extends to the next entry by one step.
proof fn lemma_fold_unfold(infos: Seq<MemoryInfo>, i: int)
    requires
        0 <= i < infos.len(),
    ensures
        spec_alloc_fold(infos.take(i + 1)) == (match spec_alloc_fold(infos.take(i)) {
            Err(e) => Err::<(Seq<AllocationRegionView>, int), Error>(e),
            Ok((regions, nv)) => spec_alloc_step(regions, nv, infos[i]),
        }),
{
    assert(infos.take(i + 1).drop_last() =~= infos.take(i));
    assert(infos.take(i + 1).last() == infos[i]);
}

/// An error reached on a prefix of the scan is the error of the whole
/// scan.
proof fn lemma_fold_err(infos: Seq<MemoryInfo>, i: int, e: Error)
    requires
        0 <= i <= infos.len(),
        spec_alloc_fold(infos.take(i)) == Err::<(Seq<AllocationRegionView>, int), Error>(e),
    ensures
        spec_alloc_fold(infos) == Err::<(Seq<AllocationRegionView>, int), Error>(e),
    decreases infos.len() - i,
{
    if i == infos.len() {
        assert(infos.take(i) =~= infos);
    } else {
        lemma_fold_unfold(infos, i);
        lemma_fold_err(infos, i + 1, e);
    }
}

/// Groups memory-info entries into allocation regions by a single
/// left-to-right scan, verifying contiguity and per-allocation
/// consistency; any violation is an error, never a skipped entry.
pub fn find_allocation_regions(meminfo: &Vec<MemoryInfo>) -> (r: Result<
    Vec<AllocationRegion>,
    Error,
>)
    ensures
        match r {
            Ok(v) => spec_find_allocation_regions(meminfo@) == Ok::<
                Seq<AllocationRegionView>,
                Error,
            >(regions_view(v@)),
            Err(e) => spec_find_allocation_regions(meminfo@) == Err::<
                Seq<AllocationRegionView>,
                Error,
            >(e),
        },
{
    let n: usize = meminfo.len();
    let mut regions: Vec<AllocationRegion> = Vec::new();
    let mut next_va: u128 = 0;
    let mut i: usize = 0;
    proof {
        assert(meminfo@.take(0) =~= Seq::<MemoryInfo>::empty());
        assert(regions_view(regions@) =~= Seq::<AllocationRegionView>::empty());
    }
    while i < n
        invariant
            i <= n,
            n == meminfo@.len(),
            spec_alloc_fold(meminfo@.take(i as int)) == Ok::<
                (Seq<AllocationRegionView>, int),
                Error,
            >((regions_view(regions@), next_va as int)),
            next_va <= u64::MAX as u128 + u64::MAX as u128,
        decreases n - i,
    {
        proof {
            lemma_fold_unfold(meminfo@, i as int);
        }
        let info = meminfo[i];
        if info.BaseAddress as u128 != next_va {
            proof {
                lemma_fold_err(meminfo@, i + 1, Error::ContiguityViolation);
            }
            return Err(Error::ContiguityViolation);
        }
        next_va = info.BaseAddress as u128 + info.RegionSize as u128;
        if info.AllocationBase == 0 {
            if !(info.AllocationProtect == 0 && info.Protect == PAGE_NOACCESS && info.State
                == MEM_FREE && info.Type == 0) {
                proof {
                    lemma_fold_err(meminfo@, i + 1, Error::BadFreeRegion);
                }
                return Err(Error::BadFreeRegion);
            }
        } else {
            let cur_base: u64 = if regions.len() > 0 {
                regions[regions.len() - 1].AllocationBase
            } else {
                0
            };
            if info.AllocationBase != cur_base {
                let fresh = AllocationRegion {
                    AllocationBase: info.AllocationBase,
                    AllocationSize: 0,
                    AllocationProtect: info.AllocationProtect,
                    ModuleName: None,
                    Regions: Vec::new(),
                };
                proof {
                    assert(fresh@.Regions =~= Seq::<ProtectionRegion>::empty());
                    assert(regions_view(regions@.push(fresh)) =~= regions_view(regions@).push(
                        fresh@,
                    ));
                }
                regions.push(fresh);
            }
            let ghost regions1 = regions_view(regions@);
            let last_idx: usize = regions.len() - 1;
            let cur_alloc_base: u64 = regions[last_idx].AllocationBase;
            let cur_alloc_protect: u32 = regions[last_idx].AllocationProtect;
            let cur_alloc_size: u64 = regions[last_idx].AllocationSize;
            if info.AllocationBase != cur_alloc_base || info.AllocationProtect != cur_alloc_protect
                || info.BaseAddress as u128 != cur_alloc_base as u128 + cur_alloc_size as u128 {
                proof {
                    lemma_fold_err(meminfo@, i + 1, Error::AllocationMismatch);
                }
                return Err(Error::AllocationMismatch);
            }
            if cur_alloc_size as u128 + info.RegionSize as u128 > u64::MAX as u128 {
                proof {
                    lemma_fold_err(meminfo@, i + 1, Error::AllocationMismatch);
                }
                return Err(Error::AllocationMismatch);
            }
            let ghost before_pop = regions@;
            let mut current = match regions.pop() {
                Some(c) => c,
                None => {
                    proof {
                        assert(false);
                    }
                    return Err(Error::AllocationMismatch);
                },
            };
            let protect_region = ProtectionRegion {
                BaseAddress: info.BaseAddress,
                RegionSize: info.RegionSize,
                State: info.State,
                Protect: info.Protect,
                Type: info.Type,
            };
            current.AllocationSize = current.AllocationSize + info.RegionSize;
            current.Regions.push(protect_region);
            proof {
                assert(protect_region == spec_protection_region(info));
                assert(regions1.last() == before_pop.last()@);
                assert(regions_view(regions@.push(current)) =~= regions1.update(
                    regions1.len() - 1,
                    current@,
                ));
            }
            regions.push(current);
        }
        proof {
            assert(spec_alloc_fold(meminfo@.take(i + 1)) == Ok::<
                (Seq<AllocationRegionView>, int),
                Error,
            >((regions_view(regions@), next_va as int)));
        }
        i += 1;
    }
    proof {
        assert(meminfo@.take(n as int) =~= meminfo@);
    }
    Ok(regions)
}

/// Region bases strictly increase: the scan emits allocation regions in
/// ascending base order, which is what lets module annotation search them
/// by base.
pub open spec fn regions_sorted(regions: Seq<AllocationRegionView>) -> bool {
    forall|i: int, j: int|
        #![trigger regions[i], regions[j]]
        0 <= i < j < regions.len() ==> regions[i].AllocationBase < regions[j].AllocationBase
}

/// What holds of the scan's state after any number of steps: bases
/// strictly increase and are nonzero, and the last region ends at or
/// before the expected next address.
pub open spec fn fold_state_inv(regions: Seq<AllocationRegionView>, nv: int) -> bool {
    &&& regions_sorted(regions)
    &&& forall|i: int| 0 <= i < regions.len() ==> (#[trigger] regions[i]).AllocationBase >= 1
    &&& regions.len() > 0 ==> regions.last().AllocationBase + regions.last().AllocationSize <= nv
    &&& 0 <= nv
}

proof fn lemma_step_inv(regions: Seq<AllocationRegionView>, nv: int, info: MemoryInfo)
    requires
        fold_state_inv(regions, nv),
    ensures
        (match spec_alloc_step(regions, nv, info) {
            Ok(s) => fold_state_inv(s.0, s.1),
            Err(_) => true,
        }),
{
    match spec_alloc_step(regions, nv, info) {
        Ok((rs, nv2)) => {
            if info.AllocationBase == 0 {
            } else {
                let cur_base: int = if regions.len() > 0 {
                    regions.last().AllocationBase as int
                } else {
                    0
                };
                if info.AllocationBase != cur_base {
                    // The new region opens at the running end address, past
                    // every existing region.
                    assert(info.BaseAddress == nv);
                    assert(info.AllocationBase == nv);
                    if regions.len() > 0 {
                        assert(regions.last().AllocationBase < info.AllocationBase);
                    }
                    assert(regions_sorted(rs)) by {
                        assert(forall|i: int, j: int|
                            #![trigger rs[i], rs[j]]
                            0 <= i < j < rs.len() ==> rs[i].AllocationBase < rs[j].AllocationBase);
                    }
                } else {
                    assert(regions_sorted(rs)) by {
                        assert(forall|i: int, j: int|
                            #![trigger rs[i], rs[j]]
                            0 <= i < j < rs.len() ==> rs[i].AllocationBase < rs[j].AllocationBase);
                    }
                }
            }
        },
        Err(_) => {},
    }
}

proof fn lemma_fold_inv(infos: Seq<MemoryInfo>)
    ensures
        (match spec_alloc_fold(infos) {
            Ok(s) => fold_state_inv(s.0, s.1),
            Err(_) => true,
        }),
    decreases infos.len(),
{
    if infos.len() == 0 {
        assert(fold_state_inv(Seq::<AllocationRegionView>::empty(), 0));
    } else {
        lemma_fold_inv(infos.drop_last());
        match spec_alloc_fold(infos.drop_last()) {
            Ok((rs, nv)) => {
                lemma_step_inv(rs, nv, infos.last());
            },
            Err(_) => {},
        }
    }
}

/// The analysis emits its regions in strictly ascending base order.
pub proof fn lemma_alloc_regions_sorted(infos: Seq<MemoryInfo>)
    ensures
        (match spec_find_allocation_regions(infos) {
            Ok(regions) => regions_sorted(regions),
            Err(_) => true,
        }),
{
    lemma_fold_inv(infos);
}

proof fn lemma_fold_prefix(infos: Seq<MemoryInfo>, i: int)
    requires
        0 <= i <= infos.len(),
        spec_alloc_fold(infos) is Ok,
    ensures
        spec_alloc_fold(infos.take(i)) is Ok,
    decreases infos.len() - i,
{
    if i == infos.len() {
        assert(infos.take(i) =~= infos);
    } else {
        lemma_fold_prefix(infos, i + 1);
        lemma_fold_unfold(infos, i);
    }
}

/// The mutation law of the contiguity check: in a list the analysis
/// accepts, changing any one entry's base address to anything else makes
/// the analysis fail with `ContiguityViolation`, deterministically; the
/// entry is never silently skipped.
pub proof fn lemma_contiguity_mutation(infos: Seq<MemoryInfo>, k: int, bad: u64)
    requires
        0 <= k < infos.len(),
        spec_alloc_fold(infos) is Ok,
        bad != infos[k].BaseAddress,
    ensures
        spec_find_allocation_regions(
            infos.update(k, MemoryInfo { BaseAddress: bad, ..infos[k] }),
        ) == Err::<Seq<AllocationRegionView>, Error>(Error::ContiguityViolation),
{
    let infos2 = infos.update(k, MemoryInfo { BaseAddress: bad, ..infos[k] });
    lemma_fold_prefix(infos, k);
    lemma_fold_prefix(infos, k + 1);
    lemma_fold_unfold(infos, k);
    assert(infos2.take(k) =~= infos.take(k));
    lemma_fold_unfold(infos2, k);
    lemma_fold_err(infos2, k + 1, Error::ContiguityViolation);
}

/// Whether some region's allocation base is exactly `base`.
pub open spec fn has_region_base(regions: Seq<AllocationRegionView>, base: u64) -> bool {
    exists|i: int| 0 <= i < regions.len() && (#[trigger] regions[i]).AllocationBase == base
}

/// The index of the region whose allocation base is `base`; regions are
/// searched by base, which the scan keeps strictly increasing, so the
/// index is unique when it exists.
pub open spec fn region_base_index(regions: Seq<AllocationRegionView>, base: u64) -> int {
    choose|i: int| 0 <= i < regions.len() && (#[trigger] regions[i]).AllocationBase == base
}

/// Annotation of one module: the region whose base equals the module's
/// image base must exist (`ModuleNotInAnyRegion`), its accumulated size
/// must equal the module's image size (`ModuleSizeMismatch`), every one
/// of its protection regions must be of image type
/// (`ModuleRegionNotImage`), and the module's name must resolve
/// (`ModuleNameMissing`); the name is then attached to the region.
pub open spec fn spec_annotate_one(
    regions: Seq<AllocationRegionView>,
    m: ModuleView,
    data: Seq<u8>,
) -> Result<Seq<AllocationRegionView>, Error> {
    if !has_region_base(regions, m.BaseOfImage) {
        Err(Error::ModuleNotInAnyRegion)
    } else {
        let idx = region_base_index(regions, m.BaseOfImage);
        let r = regions[idx];
        if r.AllocationSize != m.SizeOfImage {
            Err(Error::ModuleSizeMismatch)
        } else if exists|j: int| 0 <= j < r.Regions.len() && (#[trigger] r.Regions[j]).Type
            != MEM_IMAGE {
            Err(Error::ModuleRegionNotImage)
        } else {
            match spec_parse_string(data, m.ModuleNameRva as int) {
                Ok(name) => Ok(
                    regions.update(idx, AllocationRegionView { ModuleName: Some(name), ..r }),
                ),
                Err(_) => Err(Error::ModuleNameMissing),
            }
        }
    }
}

/// Annotation of a module list, first to last.
pub open spec fn spec_annotate(
    regions: Seq<AllocationRegionView>,
    modules: Seq<ModuleView>,
    data: Seq<u8>,
) -> Result<Seq<AllocationRegionView>, Error>
    decreases modules.len(),
{
    if modules.len() == 0 {
        Ok(regions)
    } else {
        match spec_annotate(regions, modules.drop_last(), data) {
            Err(e) => Err(e),
            Ok(rs) => spec_annotate_one(rs, modules.last(), data),
        }
    }
}

proof fn lemma_annotate_unfold(
    regions: Seq<AllocationRegionView>,
    modules: Seq<ModuleView>,
    data: Seq<u8>,
    j: int,
)
    requires
        0 <= j < modules.len(),
    ensures
        spec_annotate(regions, modules.take(j + 1), data) == (match spec_annotate(
            regions,
            modules.take(j),
            data,
        ) {
            Err(e) => Err::<Seq<AllocationRegionView>, Error>(e),
            Ok(rs) => spec_annotate_one(rs, modules[j], data),
        }),
{
    assert(modules.take(j + 1).drop_last() =~= modules.take(j));
    assert(modules.take(j + 1).last() == modules[j]);
}

proof fn lemma_annotate_err(
    regions: Seq<AllocationRegionView>,
    modules: Seq<ModuleView>,
    data: Seq<u8>,
    j: int,
    e: Error,
)
    requires
        0 <= j <= modules.len(),
        spec_annotate(regions, modules.take(j), data) == Err::<Seq<AllocationRegionView>, Error>(e),
    ensures
        spec_annotate(regions, modules, data) == Err::<Seq<AllocationRegionView>, Error>(e),
    decreases modules.len() - j,
{
    if j == modules.len() {
        assert(modules.take(j) =~= modules);
    } else {
        lemma_annotate_unfold(regions, modules, data, j);
        lemma_annotate_err(regions, modules, data, j + 1, e);
    }
}

/// The unmatched-module law: a module whose image base equals no region's
/// allocation base makes annotation fail with `ModuleNotInAnyRegion`
/// (stated for the first module of the list, which is checked first).
pub proof fn lemma_module_unmatched(
    regions: Seq<AllocationRegionView>,
    modules: Seq<ModuleView>,
    data: Seq<u8>,
)
    requires
        modules.len() > 0,
        !has_region_base(regions, modules[0].BaseOfImage),
    ensures
        spec_annotate(regions, modules, data) == Err::<Seq<AllocationRegionView>, Error>(
            Error::ModuleNotInAnyRegion,
        ),
{
    lemma_annotate_unfold(regions, modules, data, 0);
    assert(modules.take(0) =~= Seq::<ModuleView>::empty());
    lemma_annotate_err(regions, modules, data, 1, Error::ModuleNotInAnyRegion);
}

/// The size-mismatch law: a module whose image base matches a region but
/// whose declared image size differs from the region's accumulated size
/// makes annotation fail with `ModuleSizeMismatch` (stated for the first
/// module of the list).
pub proof fn lemma_module_size_mismatch(
    regions: Seq<AllocationRegionView>,
    modules: Seq<ModuleView>,
    data: Seq<u8>,
)
    requires
        modules.len() > 0,
        has_region_base(regions, modules[0].BaseOfImage),
        regions[region_base_index(regions, modules[0].BaseOfImage)].AllocationSize
            != modules[0].SizeOfImage,
    ensures
        spec_annotate(regions, modules, data) == Err::<Seq<AllocationRegionView>, Error>(
            Error::ModuleSizeMismatch,
        ),
{
    lemma_annotate_unfold(regions, modules, data, 0);
    assert(modules.take(0) =~= Seq::<ModuleView>::empty());
    lemma_annotate_err(regions, modules, data, 1, Error::ModuleSizeMismatch);
}

/// `b` keeps every field of every region of `a` except possibly the
/// module names.
pub open spec fn same_shape(a: Seq<AllocationRegionView>, b: Seq<AllocationRegionView>) -> bool {
    &&& a.len() == b.len()
    &&& forall|k: int|
        0 <= k < a.len() ==> (#[trigger] b[k]).AllocationBase == a[k].AllocationBase
            && b[k].AllocationSize == a[k].AllocationSize && b[k].AllocationProtect
            == a[k].AllocationProtect && b[k].Regions == a[k].Regions
}

/// Binary search for the region whose allocation base is exactly `base`.
fn find_region_index(regions: &Vec<AllocationRegion>, base: u64) -> (r: Result<usize, Error>)
    requires
        regions_sorted(regions_view(regions@)),
    ensures
        match r {
            Ok(idx) => idx < regions@.len() && regions@[idx as int]@.AllocationBase == base,
            Err(e) => e == Error::ModuleNotInAnyRegion && !has_region_base(
                regions_view(regions@),
                base,
            ),
        },
{
    let ghost rv = regions_view(regions@);
    let mut lo: usize = 0;
    let mut hi: usize = regions.len();
    while lo < hi
        invariant
            lo <= hi <= regions@.len(),
            rv == regions_view(regions@),
            regions_sorted(rv),
            forall|k: int| 0 <= k < lo ==> (#[trigger] rv[k]).AllocationBase < base,
            forall|k: int| hi <= k < rv.len() ==> (#[trigger] rv[k]).AllocationBase > base,
        decreases hi - lo,
    {
        let mid: usize = lo + (hi - lo) / 2;
        let mid_base: u64 = regions[mid].AllocationBase;
        proof {
            assert(rv[mid as int].AllocationBase == mid_base);
        }
        if mid_base == base {
            return Ok(mid);
        } else if mid_base < base {
            proof {
                assert forall|k: int| 0 <= k <= mid implies (#[trigger] rv[k]).AllocationBase
                    < base by {
                    if k < mid {
                        assert(rv[k].AllocationBase < rv[mid as int].AllocationBase);
                    }
                }
            }
            lo = mid + 1;
        } else {
            proof {
                assert forall|k: int| mid <= k < rv.len() implies (#[trigger] rv[k]).AllocationBase
                    > base by {
                    if k > mid {
                        assert(rv[mid as int].AllocationBase < rv[k].AllocationBase);
                    }
                }
            }
            hi = mid;
        }
    }
    proof {
        assert(!has_region_base(rv, base)) by {
            assert(forall|k: int| 0 <= k < rv.len() ==> (#[trigger] rv[k]).AllocationBase != base);
        }
    }
    Err(Error::ModuleNotInAnyRegion)
}

/// Whether every protection region of `region` is of image type.
fn all_regions_image(region: &AllocationRegion) -> (b: bool)
    ensures
        b == !(exists|j: int|
            0 <= j < region@.Regions.len() && (#[trigger] region@.Regions[j]).Type != MEM_IMAGE),
{
    let n: usize = region.Regions.len();
    let mut k: usize = 0;
    while k < n
        invariant
            k <= n,
            n == region@.Regions.len(),
            forall|t: int| 0 <= t < k ==> (#[trigger] region@.Regions[t]).Type == MEM_IMAGE,
        decreases n - k,
    {
        if region.Regions[k].Type != MEM_IMAGE {
            return false;
        }
        k += 1;
    }
    true
}

/// Ties each module to the allocation region whose base is the module's
/// image base: the region's size must equal the module's image size,
/// every constituent protection region must be of image type, and the
/// module's name must resolve; the name is attached to the region.
///
/// On an error the regions already visited keep any names attached so
/// far; everything except the names is left untouched either way.
#[verifier::rlimit(100)]
pub fn annotate_modules(
    regions: &mut Vec<AllocationRegion>,
    modules: &Vec<Module>,
    data: &[u8],
) -> (r: Result<(), Error>)
    requires
        regions_sorted(regions_view(old(regions)@)),
    ensures
        match r {
            Ok(()) => spec_annotate(regions_view(old(regions)@), mods_view(modules@), data@)
                == Ok::<Seq<AllocationRegionView>, Error>(regions_view(final(regions)@)),
            Err(e) => spec_annotate(regions_view(old(regions)@), mods_view(modules@), data@)
                == Err::<Seq<AllocationRegionView>, Error>(e),
        },
        same_shape(regions_view(old(regions)@), regions_view(final(regions)@)),
{
    let m_count: usize = modules.len();
    let mut j: usize = 0;
    proof {
        assert(mods_view(modules@).take(0) =~= Seq::<ModuleView>::empty());
    }
    while j < m_count
        invariant
            j <= m_count,
            m_count == modules@.len(),
            regions_sorted(regions_view(old(regions)@)),
            same_shape(regions_view(old(regions)@), regions_view(regions@)),
            spec_annotate(regions_view(old(regions)@), mods_view(modules@).take(j as int), data@)
                == Ok::<Seq<AllocationRegionView>, Error>(regions_view(regions@)),
        decreases m_count - j,
    {
        let ghost rv = regions_view(regions@);
        let ghost rv0 = regions_view(old(regions)@);
        let ghost m_view = modules@[j as int]@;
        proof {
            lemma_annotate_unfold(rv0, mods_view(modules@), data@, j as int);
            assert(mods_view(modules@)[j as int] == m_view);
            assert forall|a: int, b: int|
                #![trigger rv[a], rv[b]]
                0 <= a < b < rv.len() implies rv[a].AllocationBase < rv[b].AllocationBase by {
                assert(rv[a].AllocationBase == rv0[a].AllocationBase);
                assert(rv[b].AllocationBase == rv0[b].AllocationBase);
                assert(rv0[a].AllocationBase < rv0[b].AllocationBase);
            }
        }
        let base_of_image: u64 = modules[j].BaseOfImage;
        let idx: usize = match find_region_index(regions, base_of_image) {
            Ok(k) => k,
            Err(e) => {
                proof {
                    lemma_annotate_err(
                        regions_view(old(regions)@),
                        mods_view(modules@),
                        data@,
                        j + 1,
                        e,
                    );
                }
                return Err(e);
            },
        };
        proof {
            assert(has_region_base(rv, m_view.BaseOfImage));
            let c = region_base_index(rv, m_view.BaseOfImage);
            if c != idx as int {
                assert(rv[c].AllocationBase == rv[idx as int].AllocationBase);
                assert(false);
            }
        }
        if regions[idx].AllocationSize != modules[j].SizeOfImage as u64 {
            proof {
                lemma_annotate_err(
                    regions_view(old(regions)@),
                    mods_view(modules@),
                    data@,
                    j + 1,
                    Error::ModuleSizeMismatch,
                );
            }
            return Err(Error::ModuleSizeMismatch);
        }
        if !all_regions_image(&regions[idx]) {
            proof {
                lemma_annotate_err(
                    regions_view(old(regions)@),
                    mods_view(modules@),
                    data@,
                    j + 1,
                    Error::ModuleRegionNotImage,
                );
            }
            return Err(Error::ModuleRegionNotImage);
        }
        let name: String = match parse_string(data, modules[j].ModuleNameRva) {
            Ok((n, _)) => n,
            Err(_) => {
                proof {
                    lemma_annotate_err(
                        regions_view(old(regions)@),
                        mods_view(modules@),
                        data@,
                        j + 1,
                        Error::ModuleNameMissing,
                    );
                }
                return Err(Error::ModuleNameMissing);
            },
        };
        let region = &mut regions[idx];
        region.ModuleName = Some(name);
        proof {
            assert(regions_view(regions@) =~= rv.update(
                idx as int,
                AllocationRegionView { ModuleName: regions@[idx as int]@.ModuleName, ..rv[idx as int] },
            ));
        }
        j += 1;
    }
    proof {
        assert(mods_view(modules@).take(m_count as int) =~= mods_view(modules@));
    }
    Ok(())
}

/// The base address entry `k` of a contiguous list must carry: the sum of
/// the region sizes of all entries before it, seeded at 0.
pub open spec fn entry_start(infos: Seq<MemoryInfo>, k: int) -> int
    decreases k,
{
    if k <= 0 {
        0
    } else {
        entry_start(infos, k - 1) + infos[k - 1].RegionSize
    }
}

/// Whether entry `k` opens a group: its allocation base is nonzero and
/// differs from the entry before it.
pub open spec fn group_first(infos: Seq<MemoryInfo>, k: int) -> bool {
    infos[k].AllocationBase != 0 && (k == 0 || infos[k - 1].AllocationBase
        != infos[k].AllocationBase)
}

/// A well-formed memory-info list: entries are contiguous from address 0
/// and fit the 64-bit address space, entries with allocation base 0 carry
/// the free-memory flags, each group's first entry starts at its
/// allocation base, and entries of one nonzero allocation share their
/// allocation protection.
pub open spec fn infos_consistent(infos: Seq<MemoryInfo>) -> bool {
    &&& forall|k: int|
        0 <= k < infos.len() ==> (#[trigger] infos[k]).BaseAddress == entry_start(infos, k)
    &&& forall|k: int|
        0 <= k < infos.len() ==> (#[trigger] infos[k]).BaseAddress + infos[k].RegionSize
            <= 0x1_0000_0000_0000_0000
    &&& forall|k: int|
        0 <= k < infos.len() && (#[trigger] infos[k]).AllocationBase == 0 ==> free_entry_ok(
            infos[k],
        )
    &&& forall|k: int|
        0 <= k < infos.len() && #[trigger] group_first(infos, k) ==> infos[k].BaseAddress
            == infos[k].AllocationBase
    &&& forall|j: int, k: int|
        #![trigger infos[j], infos[k]]
        0 <= j < k < infos.len() && infos[j].AllocationBase == infos[k].AllocationBase
            && infos[k].AllocationBase != 0 ==> infos[j].AllocationProtect
            == infos[k].AllocationProtect
}

/// The index of the last entry with a nonzero allocation base among the
/// first `k`, or -1 when there is none.
spec fn last_nz(infos: Seq<MemoryInfo>, k: int) -> int
    decreases k,
{
    if k <= 0 {
        -1
    } else if infos[k - 1].AllocationBase != 0 {
        k - 1
    } else {
        last_nz(infos, k - 1)
    }
}

proof fn lemma_last_nz(infos: Seq<MemoryInfo>, k: int)
    requires
        k >= 0,
    ensures
        -1 <= last_nz(infos, k) < k,
        last_nz(infos, k) >= 0 ==> infos[last_nz(infos, k)].AllocationBase != 0,
        forall|t: int|
            last_nz(infos, k) < t < k && 0 <= t ==> (#[trigger] infos[t]).AllocationBase == 0,
    decreases k,
{
    if k > 0 {
        lemma_last_nz(infos, k - 1);
    }
}

proof fn lemma_entry_start_mono(infos: Seq<MemoryInfo>, j: int, k: int)
    requires
        0 <= j <= k,
    ensures
        entry_start(infos, j) <= entry_start(infos, k),
    decreases k,
{
    if k > j {
        lemma_entry_start_mono(infos, j, k - 1);
    }
}

proof fn lemma_consistent_fold(infos: Seq<MemoryInfo>, k: int)
    requires
        infos_consistent(infos),
        0 <= k <= infos.len(),
    ensures
        spec_alloc_fold(infos.take(k)) matches Ok(s) && s.1 == entry_start(infos, k) && (last_nz(
            infos,
            k,
        ) == -1 ==> s.0.len() == 0) && (last_nz(infos, k) >= 0 ==> s.0.len() > 0 && {
            let m = last_nz(infos, k);
            &&& s.0.last().AllocationBase == infos[m].AllocationBase
            &&& s.0.last().AllocationProtect == infos[m].AllocationProtect
            &&& s.0.last().AllocationBase + s.0.last().AllocationSize == entry_start(infos, m + 1)
        }),
    decreases k,
{
    if k == 0 {
        assert(infos.take(0) =~= Seq::<MemoryInfo>::empty());
    } else {
        lemma_consistent_fold(infos, k - 1);
        lemma_fold_unfold(infos, k - 1);
        lemma_last_nz(infos, k);
        lemma_last_nz(infos, k - 1);
        let s = spec_alloc_fold(infos.take(k - 1))->Ok_0;
        let rs = s.0;
        let nv = s.1;
        let info = infos[k - 1];
        assert(info.BaseAddress == entry_start(infos, k - 1));
        assert(info.BaseAddress + info.RegionSize <= 0x1_0000_0000_0000_0000);
        if info.AllocationBase == 0 {
            assert(free_entry_ok(info));
            assert(last_nz(infos, k) == last_nz(infos, k - 1));
        } else {
            let m = last_nz(infos, k - 1);
            let cur_base: int = if rs.len() > 0 {
                rs.last().AllocationBase as int
            } else {
                0
            };
            assert(last_nz(infos, k) == k - 1);
            if info.AllocationBase != cur_base {
                // A region opens here: this entry must be a group's first,
                // so it starts at its own allocation base, which equals the
                // running address.
                assert(group_first(infos, k - 1)) by {
                    if k - 1 > 0 && infos[k - 2].AllocationBase == info.AllocationBase {
                        assert(last_nz(infos, k - 1) == k - 2);
                        assert(cur_base == info.AllocationBase as int);
                        assert(false);
                    }
                }
                assert(info.BaseAddress == info.AllocationBase);
                assert(spec_alloc_step(rs, nv, info) is Ok);
            } else {
                // The entry joins the open region. Its group shares the
                // allocation protection, and any entries since the region's
                // last contribution are free ones of size zero, so the
                // region's running end is exactly this entry's base.
                assert(rs.len() > 0);
                assert(m >= 0);
                assert(infos[m].AllocationBase == info.AllocationBase);
                assert(infos[m].AllocationProtect == info.AllocationProtect);
                if m == k - 2 {
                    assert(entry_start(infos, m + 1) == entry_start(infos, k - 1));
                } else {
                    assert(infos[k - 2].AllocationBase == 0);
                    assert(group_first(infos, k - 1));
                    assert(info.BaseAddress == info.AllocationBase);
                    lemma_entry_start_mono(infos, m + 1, k - 1);
                    assert(rs.last().AllocationBase + rs.last().AllocationSize == entry_start(
                        infos,
                        m + 1,
                    ));
                    assert(rs.last().AllocationSize == 0);
                }
                assert(rs.last().AllocationBase >= 1);
                assert(rs.last().AllocationSize + info.RegionSize <= u64::MAX);
                assert(spec_alloc_step(rs, nv, info) is Ok);
            }
        }
    }
}

/// The success law of the analysis: a consistent memory-info list is
/// accepted; the pass reconstructs its allocation regions and fails on
/// nothing.
pub proof fn lemma_consistent_analysis_succeeds(infos: Seq<MemoryInfo>)
    requires
        infos_consistent(infos),
    ensures
        spec_find_allocation_regions(infos) is Ok,
{
    lemma_consistent_fold(infos, infos.len() as int);
    assert(infos.take(infos.len() as int) =~= infos);
}

/// The sum of the region sizes of a sequence of protection regions.
pub open spec fn prot_size_sum(prs: Seq<ProtectionRegion>) -> int
    decreases prs.len(),
{
    if prs.len() == 0 {
        0
    } else {
        prot_size_sum(prs.drop_last()) + prs.last().RegionSize
    }
}

/// Every region's accumulated size is the sum of its protection regions'
/// sizes.
pub open spec fn regions_sizes_ok(rs: Seq<AllocationRegionView>) -> bool {
    forall|i: int|
        0 <= i < rs.len() ==> (#[trigger] rs[i]).AllocationSize == prot_size_sum(rs[i].Regions)
}

proof fn lemma_step_sizes(regions: Seq<AllocationRegionView>, nv: int, info: MemoryInfo)
    requires
        regions_sizes_ok(regions),
    ensures
        (match spec_alloc_step(regions, nv, info) {
            Ok(s) => regions_sizes_ok(s.0),
            Err(_) => true,
        }),
{
    match spec_alloc_step(regions, nv, info) {
        Ok((rs2, _)) => {
            if info.AllocationBase != 0 {
                let cur_base: int = if regions.len() > 0 {
                    regions.last().AllocationBase as int
                } else {
                    0
                };
                let regions1 = if info.AllocationBase != cur_base {
                    regions.push(
                        AllocationRegionView {
                            AllocationBase: info.AllocationBase,
                            AllocationSize: 0,
                            AllocationProtect: info.AllocationProtect,
                            ModuleName: None,
                            Regions: Seq::<ProtectionRegion>::empty(),
                        },
                    )
                } else {
                    regions
                };
                let cur = regions1.last();
                assert(regions_sizes_ok(regions1)) by {
                    assert(prot_size_sum(Seq::<ProtectionRegion>::empty()) == 0);
                }
                assert(prot_size_sum(cur.Regions.push(spec_protection_region(info)))
                    == prot_size_sum(cur.Regions) + info.RegionSize) by {
                    assert(cur.Regions.push(spec_protection_region(info)).drop_last()
                        =~= cur.Regions);
                }
                assert(forall|i: int|
                    0 <= i < rs2.len() ==> (#[trigger] rs2[i]).AllocationSize == prot_size_sum(
                        rs2[i].Regions,
                    ));
            }
        },
        Err(_) => {},
    }
}

/// The size law of the analysis: in an accepted list, each derived
/// region's accumulated allocation size equals the sum of its protection
/// regions' sizes.
pub proof fn lemma_region_sizes(infos: Seq<MemoryInfo>)
    ensures
        (match spec_find_allocation_regions(infos) {
            Ok(rs) => regions_sizes_ok(rs),
            Err(_) => true,
        }),
    decreases infos.len(),
{
    if infos.len() > 0 {
        lemma_region_sizes(infos.drop_last());
        match spec_alloc_fold(infos.drop_last()) {
            Ok((rs, nv)) => {
                lemma_step_sizes(rs, nv, infos.last());
            },
            Err(_) => {},
        }
    }
}

/// The protection regions of a sequence of allocation regions, first
/// region's first to last region's last.
pub open spec fn flat_regions(regions: Seq<AllocationRegionView>) -> Seq<ProtectionRegion>
    decreases regions.len(),
{
    if regions.len() == 0 {
        Seq::<ProtectionRegion>::empty()
    } else {
        flat_regions(regions.drop_last()) + regions.last().Regions
    }
}

/// The protection regions that the allocated (nonzero allocation base)
/// entries of a memory-info list contribute, in scan order.
pub open spec fn nonzero_protections(infos: Seq<MemoryInfo>) -> Seq<ProtectionRegion>
    decreases infos.len(),
{
    if infos.len() == 0 {
        Seq::<ProtectionRegion>::empty()
    } else if infos.last().AllocationBase != 0 {
        nonzero_protections(infos.drop_last()).push(spec_protection_region(infos.last()))
    } else {
        nonzero_protections(infos.drop_last())
    }
}

proof fn lemma_step_flat(regions: Seq<AllocationRegionView>, nv: int, info: MemoryInfo)
    ensures
        (match spec_alloc_step(regions, nv, info) {
            Ok(s) => flat_regions(s.0) == if info.AllocationBase != 0 {
                flat_regions(regions).push(spec_protection_region(info))
            } else {
                flat_regions(regions)
            },
            Err(_) => true,
        }),
{
    match spec_alloc_step(regions, nv, info) {
        Ok((rs2, _)) => {
            if info.AllocationBase != 0 {
                let cur_base: int = if regions.len() > 0 {
                    regions.last().AllocationBase as int
                } else {
                    0
                };
                let pr = spec_protection_region(info);
                if info.AllocationBase != cur_base {
                    assert(rs2.drop_last() =~= regions);
                    assert(rs2.last().Regions =~= Seq::<ProtectionRegion>::empty().push(pr));
                    assert(flat_regions(rs2) == flat_regions(regions) + rs2.last().Regions);
                    assert(flat_regions(regions) + Seq::<ProtectionRegion>::empty().push(pr)
                        =~= flat_regions(regions).push(pr));
                } else {
                    assert(rs2.drop_last() =~= regions.drop_last());
                    assert(rs2.last().Regions == regions.last().Regions.push(pr));
                    assert(flat_regions(rs2) == flat_regions(regions.drop_last())
                        + regions.last().Regions.push(pr));
                    assert(flat_regions(regions.drop_last()) + regions.last().Regions.push(pr)
                        =~= (flat_regions(regions.drop_last()) + regions.last().Regions).push(pr));
                }
            }
        },
        Err(_) => {},
    }
}

/// The reconstruction law of the analysis: in an accepted list, the
/// derived regions' protection regions, in order, are exactly those the
/// allocated entries of the memory-info list contribute, in scan order —
/// no entry is dropped, duplicated or reordered.
pub proof fn lemma_regions_reconstruct(infos: Seq<MemoryInfo>)
    ensures
        (match spec_find_allocation_regions(infos) {
            Ok(rs) => flat_regions(rs) == nonzero_protections(infos),
            Err(_) => true,
        }),
    decreases infos.len(),
{
    if infos.len() > 0 {
        lemma_regions_reconstruct(infos.drop_last());
        match spec_alloc_fold(infos.drop_last()) {
            Ok((rs, nv)) => {
                lemma_step_flat(rs, nv, infos.last());
            },
            Err(_) => {},
        }
    }
}

/// The whole analysis over a dump buffer: decode the memory-info list,
/// group it into allocation regions, decode the module list, and annotate
/// the regions with the modules.
pub open spec fn spec_memory_analysis(data: Seq<u8>) -> Result<Seq<AllocationRegionView>, Error> {
    match crate::spec_memory_info_list(data) {
        Err(e) => Err(e),
        Ok(infos) => match spec_find_allocation_regions(infos) {
            Err(e) => Err(e),
            Ok(regions) => match crate::spec_module_list(data) {
                Err(e) => Err(e),
                Ok(mods) => spec_annotate(regions, mods, data),
            },
        },
    }
}

/// Rebuilds the dump's memory metadata into the derived allocation-region
/// view: decodes the memory-info and module streams, groups the former
/// into allocation regions, and ties the modules to their regions.
pub fn memory_analysis(data: &[u8]) -> (r: Result<Vec<AllocationRegion>, Error>)
    ensures
        match r {
            Ok(v) => spec_memory_analysis(data@) == Ok::<Seq<AllocationRegionView>, Error>(
                regions_view(v@),
            ),
            Err(e) => spec_memory_analysis(data@) == Err::<Seq<AllocationRegionView>, Error>(e),
        },
{
    let meminfo = match crate::memory_info_list(data) {
        Ok(v) => v,
        Err(e) => {
            return Err(e);
        },
    };
    let mut alloc_regions = match find_allocation_regions(&meminfo) {
        Ok(v) => v,
        Err(e) => {
            return Err(e);
        },
    };
    let modules = match crate::module_list(data) {
        Ok(v) => v,
        Err(e) => {
            return Err(e);
        },
    };
    proof {
        lemma_alloc_regions_sorted(meminfo@);
    }
    match annotate_modules(&mut alloc_regions, &modules, data) {
        Ok(()) => Ok(alloc_regions),
        Err(e) => Err(e),
    }
}

} // verus!
