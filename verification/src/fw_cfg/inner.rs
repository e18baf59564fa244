//! The items of the device and the position of the reader in them.

use std::collections::BTreeMap;

use vstd::prelude::*;

use crate::bus::AccessWidth;
use crate::bytes;
use crate::error::VmError;
use crate::fw_cfg::content;
use crate::fw_cfg::content::FwCfgContent;
use crate::fw_cfg::directory;
use crate::fw_cfg::directory::{FileView, QEMU_FW_CFG_FNAME_SIZE};

verus! {

/// The item that identifies the device.
pub const QEMU_FW_CFG_ITEM_SIGNATURE: u16 = 0x0000;

/// The item that tells the features of the device.
pub const QEMU_FW_CFG_ITEM_INTERFACE_VERSION: u16 = 0x0001;

/// The item that tells the number of processors.
pub const QEMU_FW_CFG_ITEM_SMP_CPU_COUNT: u16 = 0x0005;

/// The item that holds the directory of files.
pub const QEMU_FW_CFG_ITEM_FILE_DIR: u16 = 0x0019;

/// The file that holds the memory map.
pub const QEMU_FW_CFG_ITEM_ETC_E820: u16 = 0x8000;

/// The first selector for other files.
pub const FW_CFG_FILE_FIRST: u16 = 0x0020;

/// The feature of transfers by DMA.
pub const FW_CFG_F_DMA: u32 = 2;

/// The state of the device.
#[verifier::ext_equal]
pub struct FwCfgView {
    /// The selected item.
    pub selector: u16,
    /// How much of the selected item has been read.
    pub offset: nat,
    /// The upper half of a DMA address, once it has been written.
    pub dma_high: Option<u32>,
    /// The address of a DMA descriptor that waits.
    pub pending_dma: Option<u64>,
    /// The items that are no files.
    pub known: Map<u16, Seq<u8>>,
    /// The files.
    pub files: Seq<FileView>,
}

/// The index of the first file from index `i` on that has the selector.
pub open spec fn first_file(files: Seq<FileView>, selector: u16, i: nat) -> Option<nat>
    decreases files.len() - i,
{
    if i >= files.len() {
        None
    } else if files[i as int].selector == selector {
        Some(i)
    } else {
        first_file(files, selector, i + 1)
    }
}

/// The content of the first file from index `i` on that has the selector.
pub open spec fn file_content(files: Seq<FileView>, selector: u16, i: nat) -> Option<Seq<u8>> {
    match first_file(files, selector, i) {
        Some(k) => Some(files[k as int].content),
        None => None,
    }
}

/// The file that is found has the selector, and no file before it has.
pub proof fn first_file_has_selector(files: Seq<FileView>, selector: u16, i: nat)
    ensures
        first_file(files, selector, i) matches Some(k) ==> i <= k < files.len()
            && files[k as int].selector == selector && forall|j: int|
            i <= j < k ==> (#[trigger] files[j]).selector != selector,
        first_file(files, selector, i) is None ==> forall|j: int|
            i <= j < files.len() ==> (#[trigger] files[j]).selector != selector,
    decreases files.len() - i,
{
    if i < files.len() && files[i as int].selector != selector {
        first_file_has_selector(files, selector, i + 1);
    }
}

/// Some file has the selector.
pub open spec fn taken(files: Seq<FileView>, selector: int) -> bool {
    exists|i: int| 0 <= i < files.len() && (#[trigger] files[i]).selector == selector
}

/// The first selector from `from` on that is for files and that no file has.
pub open spec fn free_selector(files: Seq<FileView>, from: int) -> Option<u16>
    decreases 0x8000 - from,
{
    if from >= 0x8000 {
        None
    } else if !taken(files, from) {
        Some(from as u16)
    } else {
        free_selector(files, from + 1)
    }
}

/// The entry of the memory map for a region: its start, its length as far as it lies below
/// 4 GiB, and that it is usable.
pub open spec fn e820_entry(region: (u64, u64)) -> Seq<u8> {
    let end = if region.0 + region.1 > 0x1_0000_0000 {
        0x1_0000_0000
    } else {
        region.0 + region.1
    };
    bytes::le_bytes_u64(region.0) + bytes::le_bytes_u64((end - region.0) as u64)
        + bytes::le_bytes_u32(1)
}

/// The memory map of the first `n` regions: an entry for each one that starts below 4 GiB.
pub open spec fn e820_bytes(regions: Seq<(u64, u64)>, n: nat) -> Seq<u8>
    decreases n,
{
    if n == 0 {
        Seq::empty()
    } else if regions[n - 1].0 >= 0x1_0000_0000 {
        e820_bytes(regions, (n - 1) as nat)
    } else {
        e820_bytes(regions, (n - 1) as nat) + e820_entry(regions[n - 1])
    }
}

/// Every region that starts below 4 GiB ends within the address space.
pub open spec fn regions_fit(regions: Seq<(u64, u64)>) -> bool {
    forall|i: int|
        0 <= i < regions.len() && (#[trigger] regions[i]).0 < 0x1_0000_0000 ==> regions[i].0
            + regions[i].1 <= u64::MAX
}

/// The little-endian number that the bytes of an access encode.
pub open spec fn le_value(raw: Seq<u8>, width: AccessWidth) -> u64 {
    match width {
        AccessWidth::Byte => raw[0] as u64,
        AccessWidth::Word => bytes::le_u16_at(raw, 0) as u64,
        AccessWidth::Dword => bytes::le_u32_at(raw, 0) as u64,
        AccessWidth::Qword => bytes::le_u64_at(raw, 0),
    }
}

/// The number whose bytes are those of `v` in the other order.
pub open spec fn swapped(v: u32) -> u32 {
    bytes::be_u32_at(bytes::le_bytes_u32(v), 0)
}

impl FwCfgView {
    /// What holds of the device in every state: a file has a selector of its own, which is for
    /// files, and a name that fits a directory entry; where there are files, there is a directory.
    pub open spec fn wf(self) -> bool {
        &&& forall|i: int|
            0 <= i < self.files.len() ==> 0x20 <= (#[trigger] self.files[i]).selector <= 0x8000
        &&& forall|i: int|
            0 <= i < self.files.len() ==> directory::name_bytes(
                (#[trigger] self.files[i]).name,
            ).len() < 56
        &&& forall|i: int, j: int|
            0 <= i < j < self.files.len() ==> (#[trigger] self.files[i]).selector != (
            #[trigger] self.files[j]).selector
        &&& forall|k: u16|
            #[trigger] self.known.contains_key(k) ==> k == 0 || k == 1 || k == 5 || k == 0x19
        &&& self.files.len() > 0 ==> self.known.contains_key(0x19)
    }

    /// The directory lists the files. It does from when the device was configured or a file was
    /// added on, until the guest writes to the directory itself.
    pub open spec fn directory_is_current(self) -> bool {
        self.known.contains_key(0x19) && self.known[0x19] == directory::dir_bytes(self.files)
    }

    /// The state before the device is configured.
    pub open spec fn initial() -> FwCfgView {
        FwCfgView {
            selector: 0,
            offset: 0,
            dma_high: None,
            pending_dma: None,
            known: Map::empty(),
            files: Seq::empty(),
        }
    }

    /// The content of the selected item, if there is such an item.
    pub open spec fn selected(self) -> Option<Seq<u8>> {
        if self.known.contains_key(self.selector) {
            Some(self.known[self.selector])
        } else {
            file_content(self.files, self.selector, 0)
        }
    }

    /// The device after its directory has been brought up to date.
    pub open spec fn with_directory(self) -> FwCfgView {
        FwCfgView { known: self.known.insert(0x19, directory::dir_bytes(self.files)), ..self }
    }

    /// The device after it has been configured.
    pub open spec fn configured(self, regions: Seq<(u64, u64)>, cpu_count: int) -> FwCfgView {
        FwCfgView {
            known: map![
                0u16 => seq![0x51u8, 0x45, 0x4d, 0x55],
                1u16 => bytes::le_bytes_u32(2),
                5u16 => bytes::le_bytes_u16((cpu_count % 0x1_0000) as u16),
            ],
            files: seq![
                FileView {
                    selector: 0x8000,
                    name: "etc/e820"@,
                    content: e820_bytes(regions, regions.len()),
                },
            ],
            ..self
        }.with_directory()
    }

    /// The device after a file has been added behind the given selector.
    pub open spec fn with_file(self, selector: u16, name: Seq<char>, content: Seq<u8>) -> FwCfgView {
        FwCfgView {
            files: self.files.push(FileView { selector, name, content }),
            ..self
        }.with_directory()
    }

    /// The device after an item has been selected.
    pub open spec fn selecting(self, selector: u16) -> FwCfgView {
        FwCfgView { selector, offset: 0, ..self }
    }

    /// What the next `size` bytes of the selected item are.
    pub open spec fn next_bytes(self, size: nat) -> Seq<u8> {
        match self.selected() {
            Some(c) => content::window(c, self.offset as int, size),
            None => Seq::new(size, |i: int| 0u8),
        }
    }

    /// The device after `size` bytes have been read. The position stops at the end of the item.
    pub open spec fn advanced(self, size: nat) -> FwCfgView {
        match self.selected() {
            Some(c) => FwCfgView {
                offset: if self.offset + size <= c.len() {
                    self.offset + size
                } else {
                    c.len()
                },
                ..self
            },
            None => self,
        }
    }

    /// The device after `size` bytes have been skipped. Without an item, the position moves on.
    pub open spec fn skipped(self, size: nat) -> FwCfgView {
        match self.selected() {
            Some(c) => self.advanced(size),
            None => FwCfgView { offset: self.offset + size, ..self },
        }
    }

    /// The device after `data` has been written to the selected item, from the position of the
    /// reader on. What lies past the end of the item is dropped, so every item keeps its length;
    /// without an item nothing is written. The position stays.
    pub open spec fn written(self, data: Seq<u8>) -> FwCfgView {
        if self.known.contains_key(self.selector) {
            FwCfgView {
                known: self.known.insert(
                    self.selector,
                    content::patched(self.known[self.selector], self.offset as int, data),
                ),
                ..self
            }
        } else {
            match first_file(self.files, self.selector, 0) {
                Some(i) => FwCfgView {
                    files: self.files.update(
                        i as int,
                        FileView {
                            content: content::patched(
                                self.files[i as int].content,
                                self.offset as int,
                                data,
                            ),
                            ..self.files[i as int]
                        },
                    ),
                    ..self
                },
                None => self,
            }
        }
    }

    /// The device after half of a DMA address has been written. The lower half completes an
    /// address whose upper half was written right before.
    pub open spec fn dma_part(self, value: u32, high_half: bool) -> FwCfgView {
        if high_half {
            FwCfgView { dma_high: Some(swapped(value)), ..self }
        } else {
            FwCfgView {
                dma_high: None,
                pending_dma: match self.dma_high {
                    Some(high) => Some((high * 0x1_0000_0000 + swapped(value)) as u64),
                    None => self.pending_dma,
                },
                ..self
            }
        }
    }
}

/// A file of the device.
#[derive(Clone, Debug, Eq, PartialEq)]
pub struct FwCfgFileItem {
    pub selector: u16,
    pub name: String,
    pub content: FwCfgContent,
}

impl View for FwCfgFileItem {
    type V = FileView;

    open spec fn view(&self) -> FileView {
        FileView { selector: self.selector, name: self.name@, content: self.content.bytes() }
    }
}

/// The items of the device, and the position of the reader.
pub struct FwCfgInner {
    selector: u16,
    offset: usize,
    dma_high: Option<u32>,
    pending_dma: Option<u64>,
    known_items: BTreeMap<u16, FwCfgContent>,
    file_items: Vec<FwCfgFileItem>,
}

impl View for FwCfgInner {
    type V = FwCfgView;

    closed spec fn view(&self) -> FwCfgView {
        FwCfgView {
            selector: self.selector,
            offset: self.offset as nat,
            dma_high: self.dma_high,
            pending_dma: self.pending_dma,
            known: self.known_items@.map_values(|c: FwCfgContent| c.bytes()),
            files: self.file_items@.map_values(|f: FwCfgFileItem| f@),
        }
    }
}

/// Builds the memory map of the regions.
pub fn build_e820(memory_regions: &[(u64, u64)]) -> (e820: Vec<u8>)
    requires
        regions_fit(memory_regions@),
    ensures
        e820@ == e820_bytes(memory_regions@, memory_regions@.len()),
{
    let mut e820: Vec<u8> = Vec::new();
    let mut i: usize = 0;
    while i < memory_regions.len()
        invariant
            i <= memory_regions@.len(),
            regions_fit(memory_regions@),
            e820@ == e820_bytes(memory_regions@, i as nat),
        decreases memory_regions@.len() - i,
    {
        let (gpa, size) = memory_regions[i];
        if gpa < 0x1_0000_0000 {
            assert(memory_regions@[i as int].0 + memory_regions@[i as int].1 <= u64::MAX);
            let end: u64 = if gpa + size > 0x1_0000_0000 {
                0x1_0000_0000
            } else {
                gpa + size
            };
            let ghost before = e820@;
            bytes::append_u64_le(&mut e820, gpa);
            bytes::append_u64_le(&mut e820, end - gpa);
            bytes::append_u32_le(&mut e820, 1);
            assert(e820@ =~= before + e820_entry(memory_regions@[i as int]));
        }
        i = i + 1;
    }
    e820
}

impl FwCfgInner {
    /// A device that is not configured.
    pub fn new() -> (f: FwCfgInner)
        ensures
            f@ == FwCfgView::initial(),
            f@.wf(),
    {
        let f = FwCfgInner {
            selector: 0,
            offset: 0,
            dma_high: None,
            pending_dma: None,
            known_items: BTreeMap::new(),
            file_items: Vec::new(),
        };
        assert(f@.known =~= Map::empty());
        assert(f@.files =~= Seq::empty());
        f
    }

    /// Puts an item that is no file behind a selector.
    fn put_known(&mut self, selector: u16, content: FwCfgContent)
        ensures
            final(self)@ == (FwCfgView {
                known: old(self)@.known.insert(selector, content.bytes()),
                ..old(self)@
            }),
    {
        self.known_items.insert(selector, content);
        assert(self@.known =~= old(self)@.known.insert(selector, content.bytes()));
    }

    /// Builds the directory of the files.
    pub fn build_file_dir(&self) -> (dir: Vec<u8>)
        requires
            forall|i: int|
                0 <= i < self@.files.len() ==> directory::name_bytes(
                    (#[trigger] self@.files[i]).name,
                ).len() <= 56,
        ensures
            dir@ == directory::dir_bytes(self@.files),
    {
        let mut dir: Vec<u8> = Vec::new();
        bytes::append_u32_be(&mut dir, (self.file_items.len() as u64 % 0x1_0000_0000) as u32);
        let ghost head = dir@;
        let mut i: usize = 0;
        while i < self.file_items.len()
            invariant
                i <= self.file_items@.len(),
                forall|k: int|
                    0 <= k < self@.files.len() ==> directory::name_bytes(
                        (#[trigger] self@.files[k]).name,
                    ).len() <= 56,
                self@.files.len() == self.file_items@.len(),
                dir@ == head + directory::entries_bytes(self@.files, i as nat),
            decreases self.file_items@.len() - i,
        {
            let item = &self.file_items[i];
            assert(self@.files[i as int] == item@);
            let size: usize = match item.content.len() {
                Ok(size) => size,
                Err(_) => 0,
            };
            let ghost before = dir@;
            directory::append_entry(&mut dir, size, item.selector, item.name.as_str());
            assert(dir@ =~= before + directory::entry_bytes(self@.files[i as int]));
            i = i + 1;
            assert(head + directory::entries_bytes(self@.files, i as nat) =~= before
                + directory::entry_bytes(self@.files[i - 1]));
        }
        assert(head =~= bytes::be_bytes_u32(directory::low_u32(self@.files.len())));
        dir
    }

    /// Brings the directory up to date.
    pub fn rebuild_file_dir(&mut self)
        requires
            forall|i: int|
                0 <= i < old(self)@.files.len() ==> directory::name_bytes(
                    (#[trigger] old(self)@.files[i]).name,
                ).len() <= 56,
        ensures
            final(self)@ == old(self)@.with_directory(),
    {
        let dir = self.build_file_dir();
        self.put_known(QEMU_FW_CFG_ITEM_FILE_DIR, FwCfgContent::Bytes(dir));
    }

    /// Fills the device for a machine with the given regions of memory and processors.
    pub fn configure(&mut self, memory_regions: &[(u64, u64)], cpu_count: usize)
        requires
            regions_fit(memory_regions@),
        ensures
            final(self)@ == old(self)@.configured(memory_regions@, cpu_count as int),
            final(self)@.wf(),
    {
        self.known_items.clear();
        self.file_items.clear();
        assert(self@.known =~= Map::empty());
        assert(self@.files =~= Seq::empty());
        let signature: Vec<u8> = vec![0x51, 0x45, 0x4d, 0x55];
        assert(signature@ =~= seq![0x51u8, 0x45, 0x4d, 0x55]);
        self.put_known(QEMU_FW_CFG_ITEM_SIGNATURE, FwCfgContent::Bytes(signature));
        self.put_known(QEMU_FW_CFG_ITEM_INTERFACE_VERSION, FwCfgContent::U32(FW_CFG_F_DMA));
        let mut cpus: Vec<u8> = Vec::new();
        bytes::append_u16_le(&mut cpus, (cpu_count % 0x1_0000) as u16);
        assert(cpus@ =~= bytes::le_bytes_u16((cpu_count % 0x1_0000) as u16));
        self.put_known(QEMU_FW_CFG_ITEM_SMP_CPU_COUNT, FwCfgContent::Bytes(cpus));
        let name = "etc/e820".to_owned();
        proof {
            directory::e820_name_fits();
        }
        let item = FwCfgFileItem {
            selector: QEMU_FW_CFG_ITEM_ETC_E820,
            name,
            content: FwCfgContent::Bytes(build_e820(memory_regions)),
        };
        assert(self@.files.len() == self.file_items@.len());
        self.file_items.push(item);
        assert(self@.files =~= seq![item@]);
        self.rebuild_file_dir();
        assert(self@.known =~= old(self)@.configured(memory_regions@, cpu_count as int).known);
    }

    /// Whether a file has the selector.
    fn selector_taken(&self, selector: u16) -> (b: bool)
        ensures
            b == taken(self@.files, selector as int),
    {
        let mut i: usize = 0;
        while i < self.file_items.len()
            invariant
                i <= self.file_items@.len(),
                self@.files.len() == self.file_items@.len(),
                forall|k: int| 0 <= k < i ==> (#[trigger] self@.files[k]).selector != selector,
            decreases self.file_items@.len() - i,
        {
            assert(self@.files[i as int] == self.file_items@[i as int]@);
            if self.file_items[i].selector == selector {
                return true;
            }
            i = i + 1;
        }
        false
    }

    /// The first selector for files that no file has.
    pub fn allocate_file_selector(&self) -> (r: Result<u16, VmError>)
        ensures
            r == VmError::or_invalid(free_selector(self@.files, 0x20)),
    {
        let mut selector: u16 = FW_CFG_FILE_FIRST;
        while selector < QEMU_FW_CFG_ITEM_ETC_E820
            invariant
                0x20 <= selector <= 0x8000,
                free_selector(self@.files, 0x20) == free_selector(self@.files, selector as int),
            decreases 0x8000 - selector,
        {
            if !self.selector_taken(selector) {
                return Ok(selector);
            }
            selector = selector + 1;
        }
        Err(VmError::InvalidInput)
    }

    /// Adds a file and returns its selector. A name that does not fit a directory entry, or a
    /// file for which no selector is left, is refused.
    pub fn add_file_item(&mut self, name: &str, content: FwCfgContent) -> (r: Result<u16, VmError>)
        requires
            old(self)@.wf(),
        ensures
            r == VmError::or_invalid(
                if directory::name_bytes(name@).len() >= 56 {
                    None
                } else {
                    free_selector(old(self)@.files, 0x20)
                },
            ),
            final(self)@ == match r {
                Ok(selector) => old(self)@.with_file(selector, name@, content.bytes()),
                Err(_) => old(self)@,
            },
            final(self)@.wf(),
    {
        if name.as_bytes().len() >= QEMU_FW_CFG_FNAME_SIZE {
            return Err(VmError::InvalidInput);
        }
        let selector: u16 = match self.allocate_file_selector() {
            Ok(selector) => selector,
            Err(err) => return Err(err),
        };
        proof {
            free_selector_is_free(self@.files, 0x20);
        }
        let item = FwCfgFileItem { selector, name: name.to_owned(), content };
        self.file_items.push(item);
        assert(self@.files =~= old(self)@.files.push(item@));
        assert forall|i: int| 0 <= i < self@.files.len() implies (
        #[trigger] self@.files[i]).selector != selector || i == old(self)@.files.len() by {}
        self.rebuild_file_dir();
        Ok(selector)
    }

    /// Selects an item; reading starts at its beginning.
    pub fn select(&mut self, selector: u16)
        ensures
            final(self)@ == old(self)@.selecting(selector),
            old(self)@.wf() ==> final(self)@.wf(),
    {
        self.selector = selector;
        self.offset = 0;
    }

    /// The content of the selected item, if there is such an item.
    fn selected_content(&self) -> (r: Option<&FwCfgContent>)
        ensures
            match self@.selected() {
                Some(c) => r matches Some(item) && item.bytes() == c,
                None => r is None,
            },
    {
        match self.known_items.get(&self.selector) {
            Some(content) => {
                assert(self@.known[self.selector] == content.bytes());
                Some(content)
            },
            None => match self.selected_file() {
                Some(i) => {
                    proof {
                        first_file_has_selector(self@.files, self@.selector, 0);
                        assert(self@.files.len() == self.file_items@.len());
                        assert(self@.files[i as int] == self.file_items@[i as int]@);
                    }
                    Some(&self.file_items[i].content)
                },
                None => None,
            },
        }
    }

    /// Reads the next bytes of the selected item, with zeros past its end.
    pub fn read_bytes(&mut self, size: usize) -> (out: Vec<u8>)
        ensures
            out@ == old(self)@.next_bytes(size as nat),
            final(self)@ == old(self)@.advanced(size as nat),
            old(self)@.wf() ==> final(self)@.wf(),
    {
        let offset: usize = self.offset;
        let (out, end): (Vec<u8>, usize) = match self.selected_content() {
            Some(item) => {
                let len: usize = match item.len() {
                    Ok(len) => len,
                    Err(_) => 0,
                };
                (
                    item.read_bytes(offset, size),
                    if offset <= len && size <= len - offset {
                        offset + size
                    } else {
                        len
                    },
                )
            },
            None => {
                let out: Vec<u8> = vec![0; size];
                assert(out@ =~= self@.next_bytes(size as nat));
                (out, offset)
            },
        };
        self.offset = end;
        out
    }

    /// Reads the next bytes of the selected item as one little-endian number.
    pub fn read_port(&mut self, width: AccessWidth) -> (value: u64)
        ensures
            value == le_value(old(self)@.next_bytes(width.bytes()), width),
            final(self)@ == old(self)@.advanced(width.bytes()),
            old(self)@.wf() ==> final(self)@.wf(),
    {
        let raw = self.read_bytes(width.size());
        match width {
            AccessWidth::Byte => raw[0] as u64,
            AccessWidth::Word => bytes::read_le_u16(raw.as_slice(), 0) as u64,
            AccessWidth::Dword => bytes::read_le_u32(raw.as_slice(), 0) as u64,
            AccessWidth::Qword => bytes::read_le_u64(raw.as_slice(), 0),
        }
    }

    /// The index of the file that has the selected selector, if there is one.
    fn selected_file(&self) -> (r: Option<usize>)
        ensures
            match first_file(self@.files, self@.selector, 0) {
                Some(k) => r matches Some(i) && i == k,
                None => r is None,
            },
    {
        let mut i: usize = 0;
        while i < self.file_items.len()
            invariant
                i <= self.file_items@.len(),
                self@.files.len() == self.file_items@.len(),
                first_file(self@.files, self@.selector, 0) == first_file(
                    self@.files,
                    self@.selector,
                    i as nat,
                ),
            decreases self.file_items@.len() - i,
        {
            assert(self@.files[i as int] == self.file_items@[i as int]@);
            if self.file_items[i].selector == self.selector {
                return Some(i);
            }
            i = i + 1;
        }
        None
    }

    /// Writes `data` to the selected item, from the position of the reader on, as far as the item
    /// reaches.
    pub fn write_bytes(&mut self, data: &[u8])
        ensures
            final(self)@ == old(self)@.written(data@),
            old(self)@.wf() ==> final(self)@.wf(),
    {
        let offset: usize = self.offset;
        let selector: u16 = self.selector;
        let mut found: Option<FwCfgContent> = None;
        match self.known_items.get(&selector) {
            Some(content) => {
                assert(self@.known[selector] == content.bytes());
                found = Some(content.copy());
            },
            None => {},
        }
        match found {
            Some(mut content) => {
                content.write_bytes(offset, data);
                self.put_known(selector, content);
            },
            None => match self.selected_file() {
                Some(i) => {
                    let ghost before = self.file_items@;
                    proof {
                        first_file_has_selector(self@.files, self@.selector, 0);
                        assert(self@.files.len() == before.len());
                        assert(self@.files[i as int] == before[i as int]@);
                    }
                    let item = &mut self.file_items[i];
                    item.content.write_bytes(offset, data);
                    assert(self@.files =~= old(self)@.written(data@).files);
                },
                None => {},
            },
        }
    }

    /// Whether the position can move on by that much: it always can within an item.
    pub fn can_skip(&self, size: usize) -> (b: bool)
        ensures
            b == (self@.selected() is None ==> self@.offset + size <= usize::MAX),
    {
        match self.selected_content() {
            Some(_) => true,
            None => size <= usize::MAX - self.offset,
        }
    }

    /// Moves the position on, at most to the end of the selected item.
    pub fn skip_bytes(&mut self, size: usize)
        requires
            old(self)@.selected() is None ==> old(self)@.offset + size <= usize::MAX,
        ensures
            final(self)@ == old(self)@.skipped(size as nat),
            old(self)@.wf() ==> final(self)@.wf(),
    {
        let offset: usize = self.offset;
        let end: usize = match self.selected_content() {
            Some(item) => {
                let len: usize = match item.len() {
                    Ok(len) => len,
                    Err(_) => 0,
                };
                if offset <= len && size <= len - offset {
                    offset + size
                } else {
                    len
                }
            },
            None => offset + size,
        };
        self.offset = end;
    }

    /// Takes half of the address of a DMA descriptor, which the guest writes most significant
    /// byte first. The lower half right after the upper half completes the address.
    pub fn write_dma_address_part(&mut self, value: usize, high_half: bool)
        ensures
            final(self)@ == old(self)@.dma_part(
                (value as int % 0x1_0000_0000) as u32,
                high_half,
            ),
            old(self)@.wf() ==> final(self)@.wf(),
    {
        let part: u32 = swap_u32((value as u64 % 0x1_0000_0000) as u32);
        if high_half {
            self.dma_high = Some(part);
        } else {
            match self.dma_high {
                Some(high) => {
                    self.pending_dma = Some(high as u64 * 0x1_0000_0000 + part as u64);
                },
                None => {},
            }
            self.dma_high = None;
        }
    }

    /// Hands out the address of the DMA descriptor that waits, and forgets it.
    pub fn take_pending_dma(&mut self) -> (r: Option<u64>)
        ensures
            r == old(self)@.pending_dma,
            final(self)@ == (FwCfgView { pending_dma: None, ..old(self)@ }),
            old(self)@.wf() ==> final(self)@.wf(),
    {
        let pending = self.pending_dma;
        self.pending_dma = None;
        pending
    }
}

/// A selector that is found free is for files, and no file has it.
pub proof fn free_selector_is_free(files: Seq<FileView>, from: int)
    requires
        0 <= from,
    ensures
        free_selector(files, from) matches Some(s) ==> from <= s < 0x8000 && !taken(
            files,
            s as int,
        ) && forall|t: int| from <= t < s ==> #[trigger] taken(files, t),
        free_selector(files, from) is None ==> forall|t: int|
            from <= t < 0x8000 ==> #[trigger] taken(files, t),
    decreases 0x8000 - from,
{
    if from < 0x8000 && taken(files, from) {
        free_selector_is_free(files, from + 1);
    }
}

/// The number whose bytes are those of `v` in the other order.
pub fn swap_u32(v: u32) -> (r: u32)
    ensures
        r == swapped(v),
{
    let mut raw: Vec<u8> = Vec::new();
    bytes::append_u32_le(&mut raw, v);
    assert(raw@ =~= bytes::le_bytes_u32(v));
    bytes::read_be_u32(raw.as_slice(), 0)
}

} // verus!
