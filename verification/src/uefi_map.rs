//! The memory map that a UEFI firmware hands to a program, and a summary of it.

use vstd::prelude::*;

use crate::bytes;

verus! {

/// The type of memory that is free for use.
pub const EFI_CONVENTIONAL_MEMORY: u32 = 7;

/// How many pages make a mebibyte.
pub const PAGES_PER_MIB: u64 = 256;

/// How many entries of the map are listed one by one.
pub const LISTED_ENTRIES: usize = 16;

/// An entry of the map: a type, where the memory starts, and how many pages it has.
#[derive(Clone, Copy, Debug, PartialEq, Eq, Structural)]
pub struct MemoryDescriptor {
    pub typ: u32,
    pub phys_start: u64,
    pub number_of_pages: u64,
}

impl MemoryDescriptor {
    /// The first address after the memory.
    pub open spec fn end(self) -> int {
        self.phys_start + self.number_of_pages * 4096
    }
}

/// The status of a call that needs a larger buffer.
pub const EFI_BUFFER_TOO_SMALL: u64 = 0x8000_0000_0000_0005;

/// How many entries the map may grow by until it is asked for again.
pub const SPARE_ENTRIES: usize = 8;

/// Why the map cannot be read.
#[derive(Clone, Copy, Debug, PartialEq, Eq, Structural)]
pub enum MapError {
    /// The firmware did not tell the size of the map.
    Probe,
    /// The map does not fit the buffer; this size would have been needed.
    TooLarge(usize),
}

/// The size of the buffer to read the map into: that of the map and of a few more entries.
pub fn map_buffer_size(status: u64, map_size: usize, desc_size: usize, capacity: usize) -> (r:
    Result<usize, MapError>)
    requires
        status == EFI_BUFFER_TOO_SMALL ==> desc_size * 8 <= usize::MAX,
    ensures
        ({
            let size = if map_size + desc_size * 8 <= usize::MAX {
                map_size + desc_size * 8
            } else {
                usize::MAX as int
            };
            r == if status != EFI_BUFFER_TOO_SMALL || desc_size == 0 {
                Err::<usize, MapError>(MapError::Probe)
            } else if size > capacity {
                Err(MapError::TooLarge(size as usize))
            } else {
                Ok(size as usize)
            }
        }),
{
    if status != EFI_BUFFER_TOO_SMALL || desc_size == 0 {
        return Err(MapError::Probe);
    }
    let size: usize = map_size.saturating_add(desc_size * SPARE_ENTRIES);
    if size > capacity {
        return Err(MapError::TooLarge(size));
    }
    Ok(size)
}

/// The entry whose bytes start at index `at` of the map.
pub open spec fn descriptor_at(map: Seq<u8>, at: int) -> MemoryDescriptor {
    MemoryDescriptor {
        typ: bytes::le_u32_at(map, at),
        phys_start: bytes::le_u64_at(map, at + 8),
        number_of_pages: bytes::le_u64_at(map, at + 24),
    }
}

/// Reads the entries of a map, which are `desc_size` bytes apart.
pub fn decode_map(map: &[u8], map_size: usize, desc_size: usize) -> (out: Vec<MemoryDescriptor>)
    requires
        desc_size >= 40,
        map_size <= map@.len(),
    ensures
        out@ == Seq::new(
            (map_size / desc_size) as nat,
            |i: int| descriptor_at(map@, i * desc_size),
        ),
{
    let entries: usize = map_size / desc_size;
    let mut out: Vec<MemoryDescriptor> = Vec::new();
    let mut i: usize = 0;
    let mut at: usize = 0;
    assert(map@.len() == map.len());
    while i < entries
        invariant
            i <= entries,
            entries == map_size / desc_size,
            desc_size >= 40,
            map_size <= map@.len() <= usize::MAX,
            at == i * desc_size,
            out@ == Seq::new(i as nat, |k: int| descriptor_at(map@, k * desc_size)),
        decreases entries - i,
    {
        assert(at + desc_size <= map_size && (i + 1) * desc_size == at + desc_size)
            by (nonlinear_arith)
            requires
                i < map_size / desc_size,
                desc_size >= 40,
                at == i * desc_size,
        ;
        out.push(
            MemoryDescriptor {
                typ: bytes::read_le_u32(map, at),
                phys_start: bytes::read_le_u64(map, at + 8),
                number_of_pages: bytes::read_le_u64(map, at + 24),
            },
        );
        at = at + desc_size;
        i = i + 1;
        assert(out@ =~= Seq::new(i as nat, |k: int| descriptor_at(map@, k * desc_size)));
    }
    out
}

/// The name of a type of memory.
pub open spec fn name_of_type(typ: u32) -> Seq<char> {
    match typ {
        0 => "Reserved"@,
        1 => "LoaderCode"@,
        2 => "LoaderData"@,
        3 => "BootCode"@,
        4 => "BootData"@,
        5 => "RuntimeCode"@,
        6 => "RuntimeData"@,
        7 => "Conventional"@,
        9 => "ACPIReclaim"@,
        10 => "ACPINVS"@,
        11 => "MMIO"@,
        12 => "MMIOPort"@,
        _ => "Unknown"@,
    }
}

/// The name of a type of memory.
pub fn memory_type_name(typ: u32) -> (name: &'static str)
    ensures
        name@ == name_of_type(typ),
{
    match typ {
        0 => "Reserved",
        1 => "LoaderCode",
        2 => "LoaderData",
        3 => "BootCode",
        4 => "BootData",
        5 => "RuntimeCode",
        6 => "RuntimeData",
        7 => "Conventional",
        9 => "ACPIReclaim",
        10 => "ACPINVS",
        11 => "MMIO",
        12 => "MMIOPort",
        _ => "Unknown",
    }
}

/// How many pages the first `n` entries have; only those of free memory where `free` is set.
pub open spec fn pages(map: Seq<MemoryDescriptor>, n: nat, free: bool) -> nat
    decreases n,
{
    if n == 0 {
        0
    } else if free && map[n - 1].typ != EFI_CONVENTIONAL_MEMORY {
        pages(map, (n - 1) as nat, free)
    } else {
        pages(map, (n - 1) as nat, free) + map[n - 1].number_of_pages as nat
    }
}

/// A line of the list of entries: the type, where the memory starts and ends, and how many pages
/// it has.
#[derive(Clone, Copy, Debug, PartialEq, Eq, Structural)]
pub struct MapLine {
    pub typ: u32,
    pub start: u64,
    pub end: u64,
    pub pages: u64,
}

/// The line for an entry.
pub open spec fn line(d: MemoryDescriptor) -> MapLine {
    MapLine {
        typ: d.typ,
        start: d.phys_start,
        end: d.end() as u64,
        pages: d.number_of_pages,
    }
}

/// How many entries are listed one by one.
pub open spec fn listed(len: nat) -> nat {
    if len <= 16 {
        len
    } else {
        16
    }
}

/// A summary of a memory map.
#[derive(Debug)]
pub struct MapSummary {
    /// The entries that are listed one by one.
    pub lines: Vec<MapLine>,
    /// How many entries are not listed.
    pub more: usize,
    /// How much memory there is.
    pub total_mib: u64,
    /// How much of it is free.
    pub conventional_mib: u64,
}

/// The pages of the first entries are at most those of all.
proof fn pages_grow(map: Seq<MemoryDescriptor>, n: nat, more: nat, free: bool)
    requires
        n <= more,
    ensures
        pages(map, n, free) <= pages(map, more, free),
    decreases more,
{
    if n < more {
        pages_grow(map, n, (more - 1) as nat, free);
    }
}

/// Free memory is part of all memory.
pub proof fn free_memory_is_part(map: Seq<MemoryDescriptor>, n: nat)
    ensures
        pages(map, n, true) <= pages(map, n, false),
    decreases n,
{
    if n > 0 {
        free_memory_is_part(map, (n - 1) as nat);
    }
}

/// Sums a memory map up.
pub fn summarize(map: &[MemoryDescriptor]) -> (s: MapSummary)
    requires
        pages(map@, map@.len(), false) <= u64::MAX,
        forall|i: int| 0 <= i < listed(map@.len()) ==> (#[trigger] map@[i]).end() <= u64::MAX,
    ensures
        s.lines@ == Seq::new(listed(map@.len()), |i: int| line(map@[i])),
        s.more == map@.len() - listed(map@.len()),
        s.total_mib == pages(map@, map@.len(), false) / 256,
        s.conventional_mib == pages(map@, map@.len(), true) / 256,
{
    let mut total: u64 = 0;
    let mut conventional: u64 = 0;
    let mut lines: Vec<MapLine> = Vec::new();
    let mut i: usize = 0;
    while i < map.len()
        invariant
            i <= map@.len(),
            pages(map@, map@.len(), false) <= u64::MAX,
            forall|k: int| 0 <= k < listed(map@.len()) ==> (#[trigger] map@[k]).end() <= u64::MAX,
            total == pages(map@, i as nat, false),
            conventional == pages(map@, i as nat, true),
            lines@ == Seq::new(listed(i as nat), |k: int| line(map@[k])),
        decreases map@.len() - i,
    {
        let d = map[i];
        proof {
            pages_grow(map@, (i + 1) as nat, map@.len(), false);
            free_memory_is_part(map@, (i + 1) as nat);
        }
        total = total + d.number_of_pages;
        if d.typ == EFI_CONVENTIONAL_MEMORY {
            conventional = conventional + d.number_of_pages;
        }
        if i < LISTED_ENTRIES {
            assert(map@[i as int].end() <= u64::MAX);
            let end: u64 = d.phys_start + d.number_of_pages * 4096;
            lines.push(
                MapLine { typ: d.typ, start: d.phys_start, end, pages: d.number_of_pages },
            );
        }
        i = i + 1;
        assert(lines@ =~= Seq::new(listed(i as nat), |k: int| line(map@[k])));
    }
    let more: usize = if map.len() > LISTED_ENTRIES {
        map.len() - LISTED_ENTRIES
    } else {
        0
    };
    MapSummary {
        lines,
        more,
        total_mib: total / PAGES_PER_MIB,
        conventional_mib: conventional / PAGES_PER_MIB,
    }
}

/// The type, the start and the number of pages of an entry are the little-endian numbers of 4, 8
/// and 8 bytes that stand 0, 8 and 24 bytes behind the beginning of the entry.
pub proof fn entry_is_read_from_its_bytes(map: Seq<u8>, at: int)
    ensures
        descriptor_at(map, at).typ == bytes::le_number(map, at, 4),
        descriptor_at(map, at).phys_start == bytes::le_number(map, at + 8, 8),
        descriptor_at(map, at).number_of_pages == bytes::le_number(map, at + 24, 8),
{
    bytes::little_endian_reads_are_numbers(map, at);
    bytes::little_endian_reads_are_numbers(map, at + 8);
    bytes::little_endian_reads_are_numbers(map, at + 24);
}

/// The pages of two maps, one behind the other, are the pages of both. A map of one entry has the
/// pages of that entry, all of them free where its type is 7 and none otherwise, and an empty map
/// has none.
pub proof fn pages_add_up(map: Seq<MemoryDescriptor>, more: Seq<MemoryDescriptor>, d: MemoryDescriptor)
    ensures
        pages(map + more, (map.len() + more.len()) as nat, false) == pages(map, map.len(), false)
            + pages(more, more.len(), false),
        pages(map + more, (map.len() + more.len()) as nat, true) == pages(map, map.len(), true)
            + pages(more, more.len(), true),
        pages(seq![d], 1, false) == d.number_of_pages,
        d.typ == 7 ==> pages(seq![d], 1, true) == d.number_of_pages,
        d.typ != 7 ==> pages(seq![d], 1, true) == 0,
        pages(Seq::empty(), 0, false) == 0 && pages(Seq::empty(), 0, true) == 0,
{
    pages_of_both(map, more, more.len(), false);
    pages_of_both(map, more, more.len(), true);
    reveal_with_fuel(pages, 2);
}

/// The pages of a map and of the first entries behind it.
proof fn pages_of_both(
    map: Seq<MemoryDescriptor>,
    more: Seq<MemoryDescriptor>,
    n: nat,
    free: bool,
)
    requires
        n <= more.len(),
    ensures
        pages(map + more, map.len() + n, free) == pages(map, map.len(), free) + pages(
            more,
            n,
            free,
        ),
    decreases n,
{
    let both = map + more;
    if n == 0 {
        pages_of_prefix(both, map, map.len(), free);
    } else {
        pages_of_both(map, more, (n - 1) as nat, free);
        assert(both[map.len() + n - 1] == more[n - 1]);
    }
}

/// The pages of the first entries do not depend on the others.
proof fn pages_of_prefix(
    a: Seq<MemoryDescriptor>,
    b: Seq<MemoryDescriptor>,
    n: nat,
    free: bool,
)
    requires
        n <= a.len(),
        n <= b.len(),
        forall|i: int| 0 <= i < n ==> a[i] == b[i],
    ensures
        pages(a, n, free) == pages(b, n, free),
    decreases n,
{
    if n > 0 {
        pages_of_prefix(a, b, (n - 1) as nat, free);
    }
}

/// The first sixteen entries are listed, or all of them where there are fewer, each with its type,
/// where it starts, where it ends, which is 4096 bytes further for each of its pages, and how many
/// pages it has.
pub proof fn lines_show_the_entries(d: MemoryDescriptor, len: nat)
    ensures
        len <= 16 ==> listed(len) == len,
        len > 16 ==> listed(len) == 16,
        line(d).typ == d.typ && line(d).start == d.phys_start && line(d).pages
            == d.number_of_pages,
        d.phys_start + 4096 * d.number_of_pages <= u64::MAX ==> line(d).end == d.phys_start + 4096
            * d.number_of_pages,
{
}

/// The names of the types of memory; a type without a name of its own is unknown.
pub proof fn types_have_their_names(typ: u32)
    ensures
        typ == 0 ==> name_of_type(typ) == "Reserved"@,
        typ == 1 ==> name_of_type(typ) == "LoaderCode"@,
        typ == 2 ==> name_of_type(typ) == "LoaderData"@,
        typ == 3 ==> name_of_type(typ) == "BootCode"@,
        typ == 4 ==> name_of_type(typ) == "BootData"@,
        typ == 5 ==> name_of_type(typ) == "RuntimeCode"@,
        typ == 6 ==> name_of_type(typ) == "RuntimeData"@,
        typ == 7 ==> name_of_type(typ) == "Conventional"@,
        typ == 9 ==> name_of_type(typ) == "ACPIReclaim"@,
        typ == 10 ==> name_of_type(typ) == "ACPINVS"@,
        typ == 11 ==> name_of_type(typ) == "MMIO"@,
        typ == 12 ==> name_of_type(typ) == "MMIOPort"@,
        typ == 8 || typ > 12 ==> name_of_type(typ) == "Unknown"@,
{
}

} // verus!
