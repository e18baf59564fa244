//! What holds of the firmware configuration device over several operations.

use vstd::prelude::*;

use crate::bytes;
use crate::fw_cfg::content;
use crate::fw_cfg::device;
use crate::fw_cfg::device::FwCfgDmaRequest;
use crate::fw_cfg::directory;
use crate::fw_cfg::directory::{EntryView, FileView};
use crate::fw_cfg::inner;
use crate::fw_cfg::inner::FwCfgView;
use crate::guest_memory;
use crate::guest_memory::RamView;

verus! {

/// Reading in two parts gives the same bytes as reading at once, and leaves the reader at the
/// same position.
pub proof fn split_reads_join(dev: FwCfgView, a: nat, b: nat)
    ensures
        dev.next_bytes(a) + dev.advanced(a).next_bytes(b) == dev.next_bytes(a + b),
        dev.advanced(a).advanced(b) == dev.advanced(a + b),
{
    assert(dev.next_bytes(a) + dev.advanced(a).next_bytes(b) =~= dev.next_bytes(a + b));
}

/// Selecting an item starts reading at its beginning, however far another read has come.
pub proof fn selecting_restarts(dev: FwCfgView, selector: u16, size: nat)
    ensures
        dev.advanced(size).selecting(selector) == dev.selecting(selector),
        dev.skipped(size).selecting(selector) == dev.selecting(selector),
        dev.selecting(selector).offset == 0,
{
}

/// Past the end of the selected item, and without an item behind the selector, reading gives
/// zeros.
pub proof fn reads_past_end_are_zero(dev: FwCfgView, size: nat, i: int)
    requires
        0 <= i < size,
        dev.selected() matches Some(c) ==> dev.offset + i >= c.len(),
    ensures
        dev.next_bytes(size)[i] == 0,
{
}

/// No read moves the position past the end of the selected item.
pub proof fn position_stays_in_item(dev: FwCfgView, size: nat)
    ensures
        dev.selected() matches Some(c) ==> dev.advanced(size).offset <= c.len(),
{
}

/// The file at index `i` is the one that its selector finds.
proof fn selector_finds_file(files: Seq<FileView>, i: int, from: nat)
    requires
        0 <= from <= i < files.len(),
        forall|a: int, b: int|
            0 <= a < b < files.len() ==> (#[trigger] files[a]).selector != (
            #[trigger] files[b]).selector,
    ensures
        inner::file_content(files, files[i].selector, from) == Some(files[i].content),
    decreases i - from,
{
    if from < i {
        assert(files[from as int].selector != files[i].selector);
        selector_finds_file(files, i, from + 1);
    }
}

/// Selecting a file and reading as many bytes as it has gives its content.
pub proof fn file_reads_back(dev: FwCfgView, i: int)
    requires
        dev.wf(),
        0 <= i < dev.files.len(),
    ensures
        dev.selecting(dev.files[i].selector).next_bytes(dev.files[i].content.len())
            == dev.files[i].content,
{
    let file = dev.files[i];
    assert(!dev.known.contains_key(file.selector));
    selector_finds_file(dev.files, i, 0);
    assert(content::window(file.content, 0, file.content.len()) =~= file.content);
}

/// A file that was added reads back behind the selector that was returned, and the files that
/// were there before still read as they did.
pub proof fn added_file_reads_back(
    dev: FwCfgView,
    selector: u16,
    name: Seq<char>,
    content: Seq<u8>,
    i: int,
)
    requires
        dev.wf(),
        directory::name_bytes(name).len() < 56,
        inner::free_selector(dev.files, 0x20) == Some(selector),
    ensures
        dev.with_file(selector, name, content).wf(),
        dev.with_file(selector, name, content).selecting(selector).next_bytes(content.len())
            == content,
        0 <= i < dev.files.len() ==> dev.with_file(selector, name, content).selecting(
            dev.files[i].selector,
        ).next_bytes(dev.files[i].content.len()) == dev.files[i].content,
{
    let after = dev.with_file(selector, name, content);
    inner::free_selector_is_free(dev.files, 0x20);
    assert forall|a: int, b: int| 0 <= a < b < after.files.len() implies (
    #[trigger] after.files[a]).selector != (#[trigger] after.files[b]).selector by {
        assert(after.files[a] == dev.files[a]);
        if b < dev.files.len() {
            assert(after.files[b] == dev.files[b]);
        }
    }
    assert(after.wf());
    file_reads_back(after, dev.files.len() as int);
    if 0 <= i < dev.files.len() {
        assert(after.files[i] == dev.files[i]);
        file_reads_back(after, i);
    }
}

/// After configuration, the signature item reads "QEMU", and the interface item offers DMA.
pub proof fn configured_items_read(
    dev: FwCfgView,
    regions: Seq<(u64, u64)>,
    cpu_count: int,
)
    ensures
        ({
            let d = dev.configured(regions, cpu_count);
            &&& d.selecting(0).next_bytes(4) == seq![0x51u8, 0x45, 0x4d, 0x55]
            &&& d.selecting(1).next_bytes(4) == bytes::le_bytes_u32(2)
            &&& d.selecting(5).next_bytes(2) == bytes::le_bytes_u16(
                (cpu_count % 0x1_0000) as u16,
            )
            &&& d.selecting(0x8000).next_bytes(
                inner::e820_bytes(regions, regions.len()).len(),
            ) == inner::e820_bytes(regions, regions.len())
        }),
{
    let d = dev.configured(regions, cpu_count);
    let e820 = inner::e820_bytes(regions, regions.len());
    assert(d.selecting(0).next_bytes(4) =~= seq![0x51u8, 0x45, 0x4d, 0x55]);
    assert(d.selecting(1).next_bytes(4) =~= bytes::le_bytes_u32(2));
    assert(d.selecting(5).next_bytes(2) =~= bytes::le_bytes_u16((cpu_count % 0x1_0000) as u16));
    selector_finds_file(d.files, 0, 0);
    assert(content::window(e820, 0, e820.len()) =~= e820);
}

/// How many of the first `n` regions start below 4 GiB.
pub open spec fn low_regions(regions: Seq<(u64, u64)>, n: nat) -> nat
    decreases n,
{
    if n == 0 {
        0
    } else if regions[n - 1].0 >= 0x1_0000_0000 {
        low_regions(regions, (n - 1) as nat)
    } else {
        low_regions(regions, (n - 1) as nat) + 1
    }
}

/// The memory map has an entry of 20 bytes for each region that starts below 4 GiB, in the order
/// of the regions. The entry tells where the region starts and how much of it lies below 4 GiB.
#[verifier::rlimit(30)]
pub proof fn memory_map_lists_low_regions(regions: Seq<(u64, u64)>, n: nat, i: int)
    requires
        inner::regions_fit(regions),
        0 <= i < n <= regions.len(),
        regions[i].0 < 0x1_0000_0000,
    ensures
        inner::e820_bytes(regions, n).len() == 20 * low_regions(regions, n),
        low_regions(regions, i as nat) < low_regions(regions, n),
        ({
            let map = inner::e820_bytes(regions, n);
            let at = 20 * low_regions(regions, i as nat) as int;
            let end = regions[i].0 + regions[i].1;
            &&& bytes::le_u64_at(map, at) == regions[i].0
            &&& bytes::le_u64_at(map, at + 8) == if end > 0x1_0000_0000 {
                0x1_0000_0000 - regions[i].0
            } else {
                regions[i].1 as int
            }
            &&& bytes::le_u32_at(map, at + 16) == 1
        }),
    decreases n,
{
    memory_map_len(regions, n);
    memory_map_len(regions, (n - 1) as nat);
    memory_map_len(regions, i as nat);
    low_regions_grow(regions, i as nat, n);
    let map = inner::e820_bytes(regions, n);
    let at = 20 * low_regions(regions, i as nat) as int;
    if i < n - 1 {
        memory_map_lists_low_regions(regions, (n - 1) as nat, i);
        let shorter = inner::e820_bytes(regions, (n - 1) as nat);
        assert(forall|k: int| 0 <= k < shorter.len() ==> map[k] == shorter[k]);
    } else {
        let end = regions[i].0 + regions[i].1;
        assert(end <= u64::MAX);
        let len = if end > 0x1_0000_0000 {
            (0x1_0000_0000 - regions[i].0) as u64
        } else {
            regions[i].1
        };
        assert(map.subrange(at, at + 8) =~= bytes::le_bytes_u64(regions[i].0));
        assert(map.subrange(at + 8, at + 16) =~= bytes::le_bytes_u64(len));
        assert(map.subrange(at + 16, at + 20) =~= bytes::le_bytes_u32(1));
        bytes::le_round_trip_u64(map, at, regions[i].0);
        bytes::le_round_trip_u64(map, at + 8, len);
        bytes::le_round_trip_u32(map, at + 16, 1);
    }
}

/// The memory map is 20 bytes long for each region that it lists.
proof fn memory_map_len(regions: Seq<(u64, u64)>, n: nat)
    ensures
        inner::e820_bytes(regions, n).len() == 20 * low_regions(regions, n),
    decreases n,
{
    if n > 0 {
        memory_map_len(regions, (n - 1) as nat);
    }
}

/// More regions are not fewer low ones; one more low region is one more.
proof fn low_regions_grow(regions: Seq<(u64, u64)>, i: nat, n: nat)
    requires
        i < n,
        regions[i as int].0 < 0x1_0000_0000,
    ensures
        low_regions(regions, i) < low_regions(regions, n),
    decreases n,
{
    if i < n - 1 {
        low_regions_grow(regions, i, (n - 1) as nat);
    }
}

/// Each directory entry is 64 bytes long, and the one at index `i` is that of the file at index
/// `i`.
proof fn entry_stands_in_order(files: Seq<FileView>, n: nat, i: int)
    requires
        0 <= i < n <= files.len(),
    ensures
        directory::entries_bytes(files, n).len() == 64 * n,
        directory::entries_bytes(files, n).subrange(64 * i, 64 * i + 64) == directory::entry_bytes(
            files[i],
        ),
    decreases n,
{
    entries_len(files, n);
    entries_len(files, (n - 1) as nat);
    let all = directory::entries_bytes(files, n);
    if i < n - 1 {
        entry_stands_in_order(files, (n - 1) as nat, i);
        assert(all.subrange(64 * i, 64 * i + 64) =~= directory::entries_bytes(
            files,
            (n - 1) as nat,
        ).subrange(64 * i, 64 * i + 64));
    } else {
        assert(all.subrange(64 * i, 64 * i + 64) =~= directory::entry_bytes(files[i]));
    }
}

/// The directory entries are 64 bytes long each.
proof fn entries_len(files: Seq<FileView>, n: nat)
    ensures
        directory::entries_bytes(files, n).len() == 64 * n,
    decreases n,
{
    if n > 0 {
        entries_len(files, (n - 1) as nat);
    }
}

/// The null byte after `len` other bytes is the first one.
proof fn first_null(field: Seq<u8>, len: nat, i: nat)
    requires
        i <= len < field.len(),
        field[len as int] == 0,
        forall|k: int| 0 <= k < len ==> field[k] != 0,
    ensures
        directory::before_null(field, i) == len - i,
    decreases len - i,
{
    if i < len {
        first_null(field, len, i + 1);
    }
}

/// A name that is text, fits and has no null byte is what comes back out of its padded form.
proof fn padded_name_reads_back(name: Seq<char>)
    requires
        directory::name_bytes(name).len() < 56,
        forall|k: int|
            0 <= k < directory::name_bytes(name).len() ==> directory::name_bytes(name)[k] != 0,
    ensures
        directory::name_of(directory::padded(directory::name_bytes(name)))
            == directory::name_bytes(name),
        vstd::utf8::valid_utf8(directory::name_bytes(name)),
        vstd::utf8::decode_utf8(directory::name_bytes(name)) == name,
{
    let raw = directory::name_bytes(name);
    first_null(directory::padded(raw), raw.len(), 0);
    assert(directory::padded(raw).take(raw.len() as int) =~= raw);
    vstd::utf8::encode_utf8_valid_utf8(name);
    vstd::utf8::encode_utf8_decode_utf8(name);
}

/// What a directory says of a file.
pub open spec fn listed(file: FileView) -> EntryView {
    EntryView { size: file.content.len(), selector: file.selector, name: file.name }
}

/// The files can be listed: their number and their sizes fit their fields, and no name holds a
/// null byte.
pub open spec fn listable(files: Seq<FileView>) -> bool {
    &&& files.len() < 0x1_0000_0000
    &&& forall|i: int|
        0 <= i < files.len() ==> {
            &&& (#[trigger] files[i]).content.len() < 0x1_0000_0000
            &&& directory::name_bytes(files[i].name).len() < 56
        }
    &&& forall|i: int, k: int|
        0 <= i < files.len() && 0 <= k < directory::name_bytes(files[i].name).len()
            ==> #[trigger] directory::name_bytes(files[i].name)[k] != 0
}

/// Reading the entry at index `i` of the directory gives what it says of the file at index `i`.
#[verifier::rlimit(30)]
proof fn entry_reads_back(files: Seq<FileView>, i: int)
    requires
        listable(files),
        0 <= i < files.len(),
    ensures
        directory::entry_at(directory::dir_bytes(files), 4 + 64 * i) == Some(listed(files[i])),
{
    let dir = directory::dir_bytes(files);
    let at = 4 + 64 * i;
    let file = files[i];
    let entry = directory::entry_bytes(file);
    let name = directory::name_bytes(file.name);
    entry_stands_in_order(files, files.len(), i);
    let all = directory::entries_bytes(files, files.len());
    assert(dir.subrange(at, at + 64) =~= all.subrange(64 * i, 64 * i + 64));
    assert(file.content.len() < 0x1_0000_0000);
    let size = directory::low_u32(file.content.len());
    assert(entry.subrange(0, 4) =~= bytes::be_bytes_u32(size));
    assert(entry.subrange(4, 6) =~= bytes::be_bytes_u16(file.selector));
    assert(entry.subrange(8, 64) =~= directory::padded(name));
    assert(dir.subrange(at, at + 4) =~= dir.subrange(at, at + 64).subrange(0, 4));
    assert(dir.subrange(at + 4, at + 6) =~= dir.subrange(at, at + 64).subrange(4, 6));
    assert(dir.subrange(at + 8, at + 64) =~= dir.subrange(at, at + 64).subrange(8, 64));
    bytes::be_round_trip_u32(dir, at, size);
    bytes::be_round_trip_u16(dir, at + 4, file.selector);
    assert forall|k: int| 0 <= k < name.len() implies name[k] != 0 by {
        assert(directory::name_bytes(files[i].name)[k] != 0);
    }
    padded_name_reads_back(file.name);
}

/// The first `n` entries of the directory read back.
proof fn entries_read_back(files: Seq<FileView>, n: nat)
    requires
        listable(files),
        n <= files.len(),
    ensures
        directory::entries_of(directory::dir_bytes(files), n) == Some(
            Seq::new(n, |i: int| listed(files[i])),
        ),
    decreases n,
{
    let dir = directory::dir_bytes(files);
    if n == 0 {
        assert(Seq::new(0, |i: int| listed(files[i])) =~= Seq::<EntryView>::empty());
    } else {
        entries_read_back(files, (n - 1) as nat);
        entry_reads_back(files, n - 1);
        let shorter = Seq::new((n - 1) as nat, |i: int| listed(files[i]));
        assert(shorter.push(listed(files[n - 1])) =~= Seq::new(n, |i: int| listed(files[i])));
    }
}

/// Reading a directory that was built gives back every file with its size, its selector and its
/// name, in order.
pub proof fn directory_reads_back(files: Seq<FileView>)
    requires
        listable(files),
    ensures
        directory::parsed(directory::dir_bytes(files)) == Some(
            Seq::new(files.len(), |i: int| listed(files[i])),
        ),
{
    let dir = directory::dir_bytes(files);
    entries_len(files, files.len());
    let count = directory::low_u32(files.len());
    assert(dir.subrange(0, 4) =~= bytes::be_bytes_u32(count));
    bytes::be_round_trip_u32(dir, 0, count);
    entries_read_back(files, files.len());
}

/// While the directory is current, what the guest reads from the directory item is the directory
/// of exactly the files that the device holds.
pub proof fn directory_item_lists_files(dev: FwCfgView)
    requires
        dev.directory_is_current(),
    ensures
        dev.selecting(0x19).next_bytes(directory::dir_bytes(dev.files).len())
            == directory::dir_bytes(dev.files),
{
    let dir = directory::dir_bytes(dev.files);
    assert(content::window(dir, 0, dir.len()) =~= dir);
}

/// The directory entries do not depend on what is in the files, only on how long they are.
proof fn entries_depend_on_lengths(a: Seq<FileView>, b: Seq<FileView>, n: nat)
    requires
        n <= a.len() == b.len(),
        forall|i: int|
            0 <= i < a.len() ==> (#[trigger] a[i]).selector == b[i].selector && a[i].name
                == b[i].name && a[i].content.len() == b[i].content.len(),
    ensures
        directory::entries_bytes(a, n) == directory::entries_bytes(b, n),
    decreases n,
{
    if n > 0 {
        entries_depend_on_lengths(a, b, (n - 1) as nat);
        assert(a[n - 1].selector == b[n - 1].selector);
    }
}

/// The directory is current once the device was configured or a file was added, and every access
/// of the guest keeps it current but a write to the directory itself.
pub proof fn directory_stays_current(
    dev: FwCfgView,
    regions: Seq<(u64, u64)>,
    cpu_count: int,
    file: FileView,
    size: nat,
    data: Seq<u8>,
)
    ensures
        dev.configured(regions, cpu_count).directory_is_current(),
        dev.with_file(file.selector, file.name, file.content).directory_is_current(),
        dev.directory_is_current() ==> {
            &&& dev.selecting(file.selector).directory_is_current()
            &&& dev.advanced(size).directory_is_current()
            &&& dev.skipped(size).directory_is_current()
            &&& dev.selector != 0x19 ==> dev.written(data).directory_is_current()
        },
{
    if dev.directory_is_current() && dev.selector != 0x19 {
        inner::first_file_has_selector(dev.files, dev.selector, 0);
        entries_depend_on_lengths(dev.files, dev.written(data).files, dev.files.len());
    }
}

/// The upper half of a DMA address and then the lower half make one address wait; either half
/// alone makes none wait, and taking the address leaves none.
pub proof fn dma_address_needs_both_halves(dev: FwCfgView, high: u32, low: u32)
    requires
        dev.pending_dma is None,
        dev.dma_high is None,
    ensures
        dev.dma_part(high, true).pending_dma is None,
        dev.dma_part(low, false).pending_dma is None,
        dev.dma_part(high, true).dma_part(low, false).pending_dma == Some(
            (inner::swapped(high) * 0x1_0000_0000 + inner::swapped(low)) as u64,
        ),
        dev.dma_part(high, true).dma_part(low, false).dma_part(low, false).pending_dma
            == dev.dma_part(high, true).dma_part(low, false).pending_dma,
{
}

/// Changing the content of a file changes no search for files.
proof fn search_ignores_content(a: Seq<FileView>, b: Seq<FileView>, selector: u16, i: nat)
    requires
        a.len() == b.len(),
        forall|k: int| 0 <= k < a.len() ==> (#[trigger] a[k]).selector == b[k].selector,
    ensures
        inner::first_file(a, selector, i) == inner::first_file(b, selector, i),
    decreases a.len() - i,
{
    if i < a.len() {
        assert(a[i as int].selector == b[i as int].selector);
        search_ignores_content(a, b, selector, i + 1);
    }
}

/// A write changes the selected item and nothing else: the bytes from the position on are those
/// that were written, as far as the item reaches; its other bytes, its length, every other item
/// and the position stay.
pub proof fn write_changes_selected_item(dev: FwCfgView, data: Seq<u8>, other: u16)
    ensures
        dev.written(data).selector == dev.selector,
        dev.written(data).offset == dev.offset,
        match dev.selected() {
            Some(b) => {
                let offset = dev.offset as int;
                &&& dev.written(data).selected() matches Some(after) && {
                    &&& after.len() == b.len()
                    &&& offset + data.len() <= b.len() ==> after.subrange(
                        offset,
                        offset + data.len(),
                    ) == data
                    &&& forall|k: int|
                        0 <= k < b.len() ==> #[trigger] after[k] == if offset <= k < offset
                            + data.len() {
                            data[k - offset]
                        } else {
                            b[k]
                        }
                }
            },
            None => dev.written(data) == dev,
        },
        other != dev.selector ==> dev.written(data).selecting(other).selected() == dev.selecting(
            other,
        ).selected(),
        dev.wf() ==> dev.written(data).wf(),
{
    let after = dev.written(data);
    inner::first_file_has_selector(dev.files, dev.selector, 0);
    search_ignores_content(dev.files, after.files, dev.selector, 0);
    search_ignores_content(dev.files, after.files, other, 0);
    inner::first_file_has_selector(dev.files, other, 0);
    if let Some(b) = dev.selected() {
        let now = after.selected().unwrap();
        if dev.offset + data.len() <= b.len() {
            assert(now.subrange(dev.offset as int, dev.offset as int + data.len()) =~= data);
        }
    }
    if dev.wf() {
        assert forall|i: int, j: int| 0 <= i < j < after.files.len() implies (
        #[trigger] after.files[i]).selector != (#[trigger] after.files[j]).selector by {
            assert(dev.files[i].selector != dev.files[j].selector);
        }
    }
}

/// What was written to an item, and fits it, reads back from the same position.
pub proof fn written_bytes_read_back(dev: FwCfgView, data: Seq<u8>)
    requires
        dev.selected() matches Some(b) && dev.offset + data.len() <= b.len(),
    ensures
        dev.written(data).next_bytes(data.len()) == data,
{
    write_changes_selected_item(dev, data, 0);
    let after = dev.written(data).selected().unwrap();
    let offset = dev.offset as int;
    assert(dev.written(data).next_bytes(data.len()) =~= data) by {
        assert forall|k: int| 0 <= k < data.len() implies after[offset + k] == data[k] by {}
    }
}

/// A transfer that writes, and that was carried out, has written the buffer to the selected item.
pub proof fn dma_write_stores_buffer(dev: FwCfgView, gpa: int, ram: RamView)
    requires
        device::dma_done(dev, gpa, ram).ok,
        ram.load(gpa, 16) is Some,
        FwCfgDmaRequest::decoded(ram.load(gpa, 16).unwrap()).writes(),
    ensures
        ({
            let request = FwCfgDmaRequest::decoded(ram.load(gpa, 16).unwrap());
            device::dma_done(dev, gpa, ram).dev == device::dma_selected(dev, request).written(
                ram.at(request.address as int, request.length as nat),
            )
        }),
{
}

/// No access of the guest but a transfer that writes changes an item.
pub proof fn only_writes_change_items(dev: FwCfgView, gpa: int, ram: RamView, size: nat)
    ensures
        ram.load(gpa, 16) is None || !FwCfgDmaRequest::decoded(
            ram.load(gpa, 16).unwrap(),
        ).writes() ==> device::dma_done(dev, gpa, ram).dev.known == dev.known
            && device::dma_done(dev, gpa, ram).dev.files == dev.files,
        dev.advanced(size).known == dev.known,
        dev.advanced(size).files == dev.files,
        dev.skipped(size).known == dev.known,
        dev.skipped(size).files == dev.files,
{
}

/// A transfer that reads, and that was carried out, has put the same bytes into guest memory that
/// a read through the data port would have given, and has moved the position as far, where the
/// buffer does not overlap the control word of the descriptor.
pub proof fn dma_read_delivers_item(dev: FwCfgView, gpa: int, ram: RamView)
    requires
        device::dma_done(dev, gpa, ram).ok,
        ram.load(gpa, 16) is Some,
        ({
            let request = FwCfgDmaRequest::decoded(ram.load(gpa, 16).unwrap());
            &&& request.reads()
            &&& request.address + request.length <= gpa || gpa + 4 <= request.address
        }),
    ensures
        ({
            let request = FwCfgDmaRequest::decoded(ram.load(gpa, 16).unwrap());
            let start = device::dma_selected(dev, request);
            let done = device::dma_done(dev, gpa, ram);
            &&& done.ram.load(request.address as int, request.length as nat) == Some(
                start.next_bytes(request.length as nat),
            )
            &&& done.dev == start.advanced(request.length as nat)
        }),
{
    let request = FwCfgDmaRequest::decoded(ram.load(gpa, 16).unwrap());
    let start = device::dma_selected(dev, request);
    let data = start.next_bytes(request.length as nat);
    let address = request.address as int;
    let status: u32 = if request.has_error() {
        1
    } else {
        0
    };
    let word = bytes::be_bytes_u32(status);
    let moved = ram.store(address, data).0;
    let after = moved.store(gpa, word).0;
    guest_memory::load_after_store(ram, address, data);
    guest_memory::load_after_store(moved, gpa, word);
    assert forall|a: int| address <= a < address + data.len() implies
        #[trigger] after.bytes.contains_key(a) by {
        assert(moved.bytes.contains_key(a));
    }
    assert(after.at(address, data.len()) =~= data) by {
        assert forall|k: int| 0 <= k < data.len() implies after.at(address, data.len())[k]
            == data[k] by {
            assert(moved.bytes.contains_key(address + k));
            assert(after.bytes[address + k] == moved.bytes[address + k]);
            assert(moved.at(address, data.len())[k] == data[k]);
        }
    }
}

/// A transfer that was carried out has put its status over the control word of its descriptor:
/// the error bit where the request came with it, and zero otherwise.
pub proof fn dma_status_is_written(dev: FwCfgView, gpa: int, ram: RamView)
    requires
        device::dma_done(dev, gpa, ram).ok,
    ensures
        ram.load(gpa, 16) is Some,
        ({
            let request = FwCfgDmaRequest::decoded(ram.load(gpa, 16).unwrap());
            let after = device::dma_done(dev, gpa, ram).ram;
            &&& after.load(gpa, 4) is Some
            &&& bytes::be_u32_at(after.load(gpa, 4).unwrap(), 0) == if request.has_error() {
                1u32
            } else {
                0u32
            }
        }),
{
    let request = FwCfgDmaRequest::decoded(ram.load(gpa, 16).unwrap());
    let status: u32 = if request.has_error() {
        1
    } else {
        0
    };
    let word = bytes::be_bytes_u32(status);
    let moved = device::dma_moved(device::dma_selected(dev, request), request, ram);
    guest_memory::load_after_store(moved.ram, gpa, word);
    assert(word.subrange(0, 4) =~= word);
    bytes::be_round_trip_u32(word, 0, status);
}

/// The directory starts with the number of files, and has 64 bytes for each of them: its size in
/// four bytes and its selector in two, all of them with the most significant byte first and as far
/// as the bytes hold them, two zeros, and its name, filled up with zeros.
pub proof fn directory_is_laid_out(files: Seq<FileView>, i: int, k: int)
    requires
        0 <= i < files.len(),
    ensures
        ({
            let dir = directory::dir_bytes(files);
            let at = 4 + 64 * i;
            let name = directory::name_bytes(files[i].name);
            &&& dir.len() == 4 + 64 * files.len()
            &&& bytes::be_number(dir, 0, 4) == files.len() % 0x1_0000_0000
            &&& bytes::be_number(dir, at, 4) == files[i].content.len() % 0x1_0000_0000
            &&& bytes::be_number(dir, at + 4, 2) == files[i].selector
            &&& dir[at + 6] == 0 && dir[at + 7] == 0
            &&& 0 <= k < 56 && k < name.len() ==> dir[at + 8 + k] == name[k]
            &&& name.len() <= k < 56 ==> dir[at + 8 + k] == 0
        }),
{
    let dir = directory::dir_bytes(files);
    let at = 4 + 64 * i;
    count_comes_first(files);
    size_and_selector_come_first(files, i);
    entry_bytes_stand_in_directory(files, i, 6);
    entry_bytes_stand_in_directory(files, i, 7);
    name_is_laid_out(files[i], k);
    if 0 <= k < 56 {
        entry_bytes_stand_in_directory(files, i, 8 + k);
        assert(dir[at + 8 + k] == dir[4 + 64 * i + (8 + k)]);
    }
}

/// An entry starts with the size and the selector of its file.
proof fn size_and_selector_come_first(files: Seq<FileView>, i: int)
    requires
        0 <= i < files.len(),
    ensures
        directory::dir_bytes(files).len() == 4 + 64 * files.len(),
        bytes::be_number(directory::dir_bytes(files), 4 + 64 * i, 4) == files[i].content.len()
            % 0x1_0000_0000,
        bytes::be_number(directory::dir_bytes(files), 4 + 64 * i + 4, 2) == files[i].selector,
{
    let dir = directory::dir_bytes(files);
    let at = 4 + 64 * i;
    let entry = directory::entry_bytes(files[i]);
    let size = bytes::be_bytes_u32(directory::low_u32(files[i].content.len()));
    let selector = bytes::be_bytes_u16(files[i].selector);
    entries_len(files, files.len());
    assert(size.len() == 4 && selector.len() == 2);
    assert(dir.subrange(at, at + 4) =~= size) by {
        assert forall|j: int| 0 <= j < 4 implies #[trigger] dir[at + j] == size[j] by {
            entry_bytes_stand_in_directory(files, i, j);
            assert(entry[j] == size[j]);
        }
        assert forall|j: int| 0 <= j < 4 implies #[trigger] dir.subrange(at, at + 4)[j]
            == size[j] by {
            assert(dir[at + j] == size[j]);
        }
    }
    assert(dir.subrange(at + 4, at + 6) =~= selector) by {
        entry_bytes_stand_in_directory(files, i, 4);
        entry_bytes_stand_in_directory(files, i, 5);
        assert(entry[4] == selector[0] && entry[5] == selector[1]);
    }
    bytes::be_round_trip_u32(dir, at, directory::low_u32(files[i].content.len()));
    bytes::be_round_trip_u16(dir, at + 4, files[i].selector);
    numbers_are_reads(dir, at);
}

/// The numbers of an entry are those that are read from it.
proof fn numbers_are_reads(dir: Seq<u8>, at: int)
    ensures
        bytes::be_number(dir, at, 4) == bytes::be_u32_at(dir, at),
        bytes::be_number(dir, at + 4, 2) == bytes::be_u16_at(dir, at + 4),
{
    bytes::big_endian_reads_are_numbers(dir, at);
    bytes::big_endian_reads_are_numbers(dir, at + 4);
}

/// The directory starts with the number of files and has 64 bytes for each of them.
proof fn count_comes_first(files: Seq<FileView>)
    ensures
        directory::dir_bytes(files).len() == 4 + 64 * files.len(),
        bytes::be_number(directory::dir_bytes(files), 0, 4) == files.len() % 0x1_0000_0000,
{
    let dir = directory::dir_bytes(files);
    let count = directory::low_u32(files.len());
    entries_len(files, files.len());
    assert(dir.subrange(0, 4) =~= bytes::be_bytes_u32(count));
    bytes::be_round_trip_u32(dir, 0, count);
    bytes::big_endian_reads_are_numbers(dir, 0);
}

/// Each byte of an entry stands at its place in the directory.
proof fn entry_bytes_stand_in_directory(files: Seq<FileView>, i: int, j: int)
    requires
        0 <= i < files.len(),
        0 <= j < 64,
    ensures
        directory::dir_bytes(files)[4 + 64 * i + j] == directory::entry_bytes(files[i])[j],
{
    let all = directory::entries_bytes(files, files.len());
    entries_len(files, files.len());
    entry_stands_in_order(files, files.len(), i);
    assert(all.subrange(64 * i, 64 * i + 64)[j] == all[64 * i + j]);
}

/// Behind the size and the selector of an entry come two zeros and the name, filled up with zeros.
proof fn name_is_laid_out(file: FileView, k: int)
    ensures
        ({
            let entry = directory::entry_bytes(file);
            let name = directory::name_bytes(file.name);
            &&& entry[6] == 0 && entry[7] == 0
            &&& 0 <= k < 56 && k < name.len() ==> entry[8 + k] == name[k]
            &&& name.len() <= k < 56 ==> entry[8 + k] == 0
        }),
{
    let entry = directory::entry_bytes(file);
    let zeros = bytes::be_bytes_u16(0);
    assert(zeros[0] == 0 && zeros[1] == 0);
    assert(entry[6] == zeros[0] && entry[7] == zeros[1]);
    if 0 <= k < 56 {
        assert(entry[8 + k] == directory::padded(directory::name_bytes(file.name))[k]);
    }
}

/// The bytes before the first null byte of a field are those before it: none of them is null, and
/// the next one is, unless the field ends there.
proof fn bytes_before_null(field: Seq<u8>, i: nat)
    requires
        i <= field.len(),
    ensures
        i + directory::before_null(field, i) <= field.len(),
        forall|k: int|
            i <= k < i + directory::before_null(field, i) ==> #[trigger] field[k] != 0,
        i + directory::before_null(field, i) < field.len() ==> field[(i + directory::before_null(
            field,
            i,
        )) as int] == 0,
    decreases field.len() - i,
{
    if i < field.len() && field[i as int] != 0 {
        bytes_before_null(field, i + 1);
    }
}

/// A directory that can be read has as many entries as its first four bytes say. Each entry has the
/// size and the selector that stand in its 64 bytes, and the name whose bytes stand there up to the
/// first null byte, or up to the end where there is none.
pub proof fn directory_is_read_from_its_bytes(dir: Seq<u8>, i: int, k: int)
    requires
        directory::parsed(dir) is Some,
        0 <= i < bytes::be_number(dir, 0, 4),
    ensures
        ({
            let entries = directory::parsed(dir).unwrap();
            let at = 4 + 64 * i;
            let name = directory::name_bytes(entries[i].name);
            &&& dir.len() >= 4 + 64 * entries.len()
            &&& entries.len() == bytes::be_number(dir, 0, 4)
            &&& entries[i].size == bytes::be_number(dir, at, 4)
            &&& entries[i].selector == bytes::be_number(dir, at + 4, 2)
            &&& name.len() <= 56
            &&& 0 <= k < name.len() ==> dir[at + 8 + k] == name[k] && name[k] != 0
            &&& name.len() < 56 ==> dir[at + 8 + name.len()] == 0
        }),
{
    bytes::big_endian_reads_are_numbers(dir, 0);
    let n = bytes::be_u32_at(dir, 0) as nat;
    let at = 4 + 64 * i;
    entries_are_those_of_their_places(dir, n, i);
    bytes::big_endian_reads_are_numbers(dir, at);
    bytes::big_endian_reads_are_numbers(dir, at + 4);
    let field = dir.subrange(at + 8, at + 64);
    let raw = directory::name_of(field);
    bytes_before_null(field, 0);
    vstd::utf8::decode_utf8_encode_utf8(raw);
    let m = directory::before_null(field, 0) as int;
    if m < 56 {
        assert(field[m] == dir[at + 8 + m]);
    }
    if 0 <= k < m {
        assert(field[k] == dir[at + 8 + k]);
    }
}

/// The entries that are read are those that stand at their places.
proof fn entries_are_those_of_their_places(dir: Seq<u8>, n: nat, i: int)
    requires
        directory::entries_of(dir, n) is Some,
        0 <= i < n,
    ensures
        directory::entries_of(dir, n).unwrap().len() == n,
        directory::entry_at(dir, 4 + 64 * i) == Some(directory::entries_of(dir, n).unwrap()[i]),
    decreases n,
{
    if n > 1 {
        if i < n - 1 {
            entries_are_those_of_their_places(dir, (n - 1) as nat, i);
        } else {
            entries_are_those_of_their_places(dir, (n - 1) as nat, 0);
        }
    } else {
        reveal_with_fuel(directory::entries_of, 2);
    }
}

/// A directory can be read exactly where all the entries that it announces are there, and the bytes
/// of each name, up to the first null byte, are text.
pub proof fn directory_can_be_read(dir: Seq<u8>)
    ensures
        directory::parsed(dir) is Some <==> dir.len() >= 4 && dir.len() >= 4 + 64
            * bytes::be_number(dir, 0, 4) && forall|i: int|
            0 <= i < bytes::be_number(dir, 0, 4) ==> vstd::utf8::valid_utf8(
                #[trigger] directory::name_of(dir.subrange(4 + 64 * i + 8, 4 + 64 * i + 64)),
            ),
{
    bytes::big_endian_reads_are_numbers(dir, 0);
    entries_can_be_read(dir, bytes::be_u32_at(dir, 0) as nat);
}

/// The first entries can be read exactly where their names are text.
proof fn entries_can_be_read(dir: Seq<u8>, n: nat)
    ensures
        directory::entries_of(dir, n) is Some <==> forall|i: int|
            0 <= i < n ==> vstd::utf8::valid_utf8(
                #[trigger] directory::name_of(dir.subrange(4 + 64 * i + 8, 4 + 64 * i + 64)),
            ),
    decreases n,
{
    if n > 0 {
        entries_can_be_read(dir, (n - 1) as nat);
        let at = 4 + 64 * (n - 1);
        assert(dir.subrange(at + 8, at + 64) == dir.subrange(
            4 + 64 * (n - 1) + 8,
            4 + 64 * (n - 1) + 64,
        ));
        if directory::entries_of(dir, n) is None {
            if directory::entries_of(dir, (n - 1) as nat) is Some {
                let last = directory::name_of(
                    dir.subrange(4 + 64 * (n - 1) + 8, 4 + 64 * (n - 1) + 64),
                );
                assert(!vstd::utf8::valid_utf8(last));
            }
        } else {
            assert forall|i: int| 0 <= i < n implies vstd::utf8::valid_utf8(
                #[trigger] directory::name_of(dir.subrange(4 + 64 * i + 8, 4 + 64 * i + 64)),
            ) by {
                if i < n - 1 {
                }
            }
        }
    }
}

/// A file that is added is the last one, behind the files that were there. Of the other items the
/// directory alone changes, and the reader stays where it is.
pub proof fn added_file_comes_last(
    dev: FwCfgView,
    selector: u16,
    name: Seq<char>,
    content: Seq<u8>,
    i: int,
    other: u16,
)
    ensures
        ({
            let after = dev.with_file(selector, name, content);
            &&& after.files.len() == dev.files.len() + 1
            &&& after.files.last() == (FileView { selector, name, content })
            &&& 0 <= i < dev.files.len() ==> after.files[i] == dev.files[i]
            &&& other != 0x19 ==> after.known.contains_key(other) == dev.known.contains_key(other)
            &&& other != 0x19 && dev.known.contains_key(other) ==> after.known[other]
                == dev.known[other]
            &&& after.known.contains_key(0x19)
            &&& after.selector == dev.selector && after.offset == dev.offset
            &&& after.dma_high == dev.dma_high && after.pending_dma == dev.pending_dma
        }),
{
}

/// A new device has no item and no file, and waits for no transfer. Configuring a device leaves it
/// with the signature, the interface, the number of processors, the directory and the memory map,
/// and with nothing else.
pub proof fn device_holds_what_was_configured(
    dev: FwCfgView,
    regions: Seq<(u64, u64)>,
    cpu_count: int,
    item: u16,
)
    ensures
        !FwCfgView::initial().known.contains_key(item),
        FwCfgView::initial().files.len() == 0,
        FwCfgView::initial().selector == 0 && FwCfgView::initial().offset == 0,
        FwCfgView::initial().dma_high is None && FwCfgView::initial().pending_dma is None,
        ({
            let after = dev.configured(regions, cpu_count);
            &&& after.known.contains_key(item) <==> item == 0 || item == 1 || item == 5 || item
                == 0x19
            &&& after.files.len() == 1
            &&& after.files[0].selector == 0x8000 && after.files[0].name == "etc/e820"@
            &&& after.selector == dev.selector && after.offset == dev.offset
            &&& after.dma_high == dev.dma_high && after.pending_dma == dev.pending_dma
        }),
{
}

} // verus!
