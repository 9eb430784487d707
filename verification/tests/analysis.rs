//! The memory-layout analysis pass and the whole-dump entry points,
//! against synthetic dumps.

use revisa_minidump::mem_analysis::{
    annotate_modules, find_allocation_regions, memory_analysis, MEM_FREE, MEM_IMAGE,
    PAGE_NOACCESS,
};
use revisa_minidump::types::{Error, MemoryInfo, Module};
use revisa_minidump::{
    exception_record, memory_info_list, memory_overlay, module_list, system_info, thread_list,
};

fn put_u16(buf: &mut Vec<u8>, v: u16) {
    buf.extend_from_slice(&v.to_le_bytes());
}

fn put_u32(buf: &mut Vec<u8>, v: u32) {
    buf.extend_from_slice(&v.to_le_bytes());
}

fn put_u64(buf: &mut Vec<u8>, v: u64) {
    buf.extend_from_slice(&v.to_le_bytes());
}

/// A whole dump: header, directory, then the given streams back to back.
fn build_dump(streams: &[(u32, Vec<u8>)]) -> Vec<u8> {
    let mut buf = Vec::new();
    buf.extend_from_slice(b"MDMP");
    put_u16(&mut buf, 42899);
    put_u16(&mut buf, 0);
    put_u32(&mut buf, streams.len() as u32);
    put_u32(&mut buf, 32); // directory right after the header
    put_u32(&mut buf, 0);
    put_u32(&mut buf, 0);
    put_u64(&mut buf, 0);
    let mut offset = 32 + 12 * streams.len() as u32;
    for (tag, s) in streams {
        put_u32(&mut buf, *tag);
        put_u32(&mut buf, s.len() as u32);
        put_u32(&mut buf, offset);
        offset += s.len() as u32;
    }
    for (_, s) in streams {
        buf.extend_from_slice(s);
    }
    buf
}

fn free_entry(base: u64, size: u64) -> MemoryInfo {
    MemoryInfo {
        BaseAddress: base,
        AllocationBase: 0,
        AllocationProtect: 0,
        RegionSize: size,
        State: MEM_FREE,
        Protect: PAGE_NOACCESS,
        Type: 0,
    }
}

fn image_entry(base: u64, alloc: u64, size: u64) -> MemoryInfo {
    MemoryInfo {
        BaseAddress: base,
        AllocationBase: alloc,
        AllocationProtect: 4,
        RegionSize: size,
        State: 0x1000,
        Protect: 4,
        Type: MEM_IMAGE,
    }
}

fn meminfo_stream(entries: &[MemoryInfo]) -> Vec<u8> {
    let mut buf = Vec::new();
    put_u32(&mut buf, 16);
    put_u32(&mut buf, 48);
    put_u64(&mut buf, entries.len() as u64);
    for e in entries {
        put_u64(&mut buf, e.BaseAddress);
        put_u64(&mut buf, e.AllocationBase);
        put_u32(&mut buf, e.AllocationProtect);
        put_u32(&mut buf, 0);
        put_u64(&mut buf, e.RegionSize);
        put_u32(&mut buf, e.State);
        put_u32(&mut buf, e.Protect);
        put_u32(&mut buf, e.Type);
        put_u32(&mut buf, 0);
    }
    buf
}

/// Four contiguous entries: a free gap, a two-part image allocation, and
/// a trailing free gap.
fn sample_entries() -> Vec<MemoryInfo> {
    vec![
        free_entry(0, 0x1000),
        image_entry(0x1000, 0x1000, 0x1000),
        image_entry(0x2000, 0x1000, 0x2000),
        free_entry(0x4000, 0x1000),
    ]
}

#[test]
fn analysis_groups_allocation_regions() {
    // The round trip: the stream decodes to exactly its entries, and the
    // pass rebuilds one region with the accumulated size.
    let dump = build_dump(&[(16, meminfo_stream(&sample_entries()))]);
    let infos = memory_info_list(&dump).expect("well-formed memory info");
    assert_eq!(infos.len(), 4);
    let regions = find_allocation_regions(&infos).expect("consistent entries");
    assert_eq!(regions.len(), 1);
    assert_eq!(regions[0].AllocationBase, 0x1000);
    assert_eq!(regions[0].AllocationSize, 0x3000);
    assert_eq!(regions[0].AllocationProtect, 4);
    assert_eq!(regions[0].ModuleName, None);
    assert_eq!(regions[0].Regions.len(), 2);
    assert_eq!(regions[0].Regions[0].BaseAddress, 0x1000);
    assert_eq!(regions[0].Regions[0].RegionSize, 0x1000);
    assert_eq!(regions[0].Regions[1].BaseAddress, 0x2000);
    assert_eq!(regions[0].Regions[1].RegionSize, 0x2000);
}

#[test]
fn analysis_two_allocations() {
    let entries = vec![
        free_entry(0, 0x1000),
        image_entry(0x1000, 0x1000, 0x1000),
        image_entry(0x2000, 0x2000, 0x1000),
    ];
    let regions = find_allocation_regions(&entries).expect("consistent entries");
    assert_eq!(regions.len(), 2);
    assert_eq!(regions[0].AllocationBase, 0x1000);
    assert_eq!(regions[0].AllocationSize, 0x1000);
    assert_eq!(regions[1].AllocationBase, 0x2000);
    assert_eq!(regions[1].AllocationSize, 0x1000);
}

#[test]
fn analysis_entry_disagreeing_with_allocation() {
    // An entry whose base differs from its own allocation base while no
    // region is open disagrees with the allocation it claims.
    let entries = vec![image_entry(0, 1, 0x1000)];
    assert_eq!(
        find_allocation_regions(&entries).unwrap_err(),
        Error::AllocationMismatch
    );
}

#[test]
fn analysis_contiguity_violation_every_position() {
    // Breaking any one entry's base address fails the pass, at every
    // position, deterministically.
    let entries = sample_entries();
    for k in 0..entries.len() {
        let mut mutated = entries.clone();
        mutated[k].BaseAddress = mutated[k].BaseAddress.wrapping_add(0x10);
        assert_eq!(
            find_allocation_regions(&mutated).unwrap_err(),
            Error::ContiguityViolation,
            "position {k}"
        );
    }
}

#[test]
fn analysis_rejects_bad_free_entry() {
    let mut entries = sample_entries();
    entries[0].Protect = 0; // a free entry must carry PAGE_NOACCESS
    assert_eq!(
        find_allocation_regions(&entries).unwrap_err(),
        Error::BadFreeRegion
    );
}

#[test]
fn analysis_rejects_protect_mismatch() {
    let mut entries = sample_entries();
    entries[2].AllocationProtect = 8; // differs from the open region's
    assert_eq!(
        find_allocation_regions(&entries).unwrap_err(),
        Error::AllocationMismatch
    );
}

fn module(base: u64, size: u32, name_rva: u32) -> Module {
    Module {
        BaseOfImage: base,
        SizeOfImage: size,
        CheckSum: 0,
        TimeDateStamp: 0,
        ModuleNameRva: name_rva,
        ModuleName: None,
    }
}

/// A buffer holding one UTF-16 string at offset 0.
fn name_buffer(name: &str) -> Vec<u8> {
    let mut buf = Vec::new();
    let units: Vec<u16> = name.encode_utf16().collect();
    put_u32(&mut buf, (units.len() * 2) as u32);
    for u in units {
        put_u16(&mut buf, u);
    }
    buf
}

#[test]
fn module_matching_no_region() {
    let mut regions = find_allocation_regions(&sample_entries()).unwrap();
    let modules = vec![module(0x9000, 0x3000, 0)];
    let data = name_buffer("m");
    assert_eq!(
        annotate_modules(&mut regions, &modules, &data).unwrap_err(),
        Error::ModuleNotInAnyRegion
    );
}

#[test]
fn module_matching_size_mismatch() {
    let mut regions = find_allocation_regions(&sample_entries()).unwrap();
    let modules = vec![module(0x1000, 0x9999, 0)];
    let data = name_buffer("m");
    assert_eq!(
        annotate_modules(&mut regions, &modules, &data).unwrap_err(),
        Error::ModuleSizeMismatch
    );
}

#[test]
fn module_matching_non_image_region() {
    let mut entries = sample_entries();
    entries[2].Type = 0x2_0000; // mapped, not image
    let mut regions = find_allocation_regions(&entries).unwrap();
    let modules = vec![module(0x1000, 0x3000, 0)];
    let data = name_buffer("m");
    assert_eq!(
        annotate_modules(&mut regions, &modules, &data).unwrap_err(),
        Error::ModuleRegionNotImage
    );
}

#[test]
fn module_matching_unresolvable_name() {
    let mut regions = find_allocation_regions(&sample_entries()).unwrap();
    let modules = vec![module(0x1000, 0x3000, 900)]; // offset past the buffer
    let data = name_buffer("m");
    assert_eq!(
        annotate_modules(&mut regions, &modules, &data).unwrap_err(),
        Error::ModuleNameMissing
    );
}

#[test]
fn module_matching_annotates_name() {
    let mut regions = find_allocation_regions(&sample_entries()).unwrap();
    let modules = vec![module(0x1000, 0x3000, 0)];
    let data = name_buffer("app.dll");
    annotate_modules(&mut regions, &modules, &data).expect("aligned module");
    assert_eq!(regions[0].ModuleName.as_deref(), Some("app.dll"));
    assert_eq!(regions[0].AllocationSize, 0x3000);
}

fn module_stream(mods: &[(u64, u32, u32)]) -> Vec<u8> {
    let mut buf = Vec::new();
    put_u32(&mut buf, mods.len() as u32);
    for (base, size, name_rva) in mods {
        put_u64(&mut buf, *base);
        put_u32(&mut buf, *size);
        put_u32(&mut buf, 0);
        put_u32(&mut buf, 0);
        put_u32(&mut buf, *name_rva);
        buf.extend_from_slice(&[0u8; 84]);
    }
    buf
}

#[test]
fn end_to_end_minimal_dump_empty_analysis() {
    // A minimal dump: one free memory-info entry and an empty module
    // stream decode to an empty allocation-region list.
    let meminfo = meminfo_stream(&[free_entry(0, 0x1000)]);
    let modules = module_stream(&[]);
    let dump = build_dump(&[(16, meminfo), (4, modules)]);
    let regions = memory_analysis(&dump).expect("minimal dump");
    assert_eq!(regions.len(), 0);
}

#[test]
fn end_to_end_annotated_analysis() {
    let meminfo = meminfo_stream(&sample_entries());
    let modules = module_stream(&[(0x1000, 0x3000, 376)]);
    let mut dump = build_dump(&[(16, meminfo), (4, modules)]);
    assert_eq!(dump.len(), 376);
    dump.extend_from_slice(&name_buffer("core.dll"));
    let regions = memory_analysis(&dump).expect("aligned dump");
    assert_eq!(regions.len(), 1);
    assert_eq!(regions[0].AllocationBase, 0x1000);
    assert_eq!(regions[0].AllocationSize, 0x3000);
    assert_eq!(regions[0].ModuleName.as_deref(), Some("core.dll"));
    // The module list itself resolves the same name.
    let mods = module_list(&dump).expect("module stream present");
    assert_eq!(mods.len(), 1);
    assert_eq!(mods[0].ModuleName.as_deref(), Some("core.dll"));
}

#[test]
fn entry_points_report_missing_streams() {
    let dump = build_dump(&[]);
    assert_eq!(memory_info_list(&dump).unwrap_err(), Error::StreamNotFound);
    assert_eq!(module_list(&dump).unwrap_err(), Error::StreamNotFound);
    assert_eq!(memory_overlay(&dump).unwrap_err(), Error::StreamNotFound);
    assert_eq!(thread_list(&dump).unwrap_err(), Error::StreamNotFound);
    assert_eq!(exception_record(&dump).unwrap_err(), Error::StreamNotFound);
    assert_eq!(system_info(&dump).unwrap_err(), Error::StreamNotFound);
    assert_eq!(memory_analysis(&dump).unwrap_err(), Error::StreamNotFound);
}

#[test]
fn memory_overlay_prefers_first_matching_stream() {
    // A direct memory list (tag 5): two ranges with their own locations.
    let mut mem_list = Vec::new();
    put_u32(&mut mem_list, 1);
    put_u64(&mut mem_list, 0x5000_0000);
    put_u32(&mut mem_list, 0x80);
    put_u32(&mut mem_list, 0x300);
    let dump = build_dump(&[(5, mem_list)]);
    let ranges = memory_overlay(&dump).expect("memory list present");
    assert_eq!(ranges.len(), 1);
    assert_eq!(ranges[0].Address, 0x5000_0000);
    assert_eq!(ranges[0].Location.Offset, 0x300);

    // The 64-bit variant (tag 9) dispatches to the accumulating decoder.
    let mut mem64 = Vec::new();
    put_u64(&mut mem64, 2);
    put_u64(&mut mem64, 0x1000);
    put_u64(&mut mem64, 0x6000_0000);
    put_u64(&mut mem64, 0x40);
    put_u64(&mut mem64, 0x6000_2000);
    put_u64(&mut mem64, 0x10);
    let dump = build_dump(&[(9, mem64)]);
    let ranges = memory_overlay(&dump).expect("memory64 list present");
    assert_eq!(ranges.len(), 2);
    assert_eq!(ranges[0].Location.Offset, 0x1000);
    assert_eq!(ranges[1].Location.Offset, 0x1040);
}
