//! The firmware configuration that the machine itself answers for.

use std::collections::BTreeMap;

use vstd::prelude::*;

use crate::bus::{AccessWidth, Port};
use crate::bytes;
use crate::error::VmError;
use crate::fw_cfg::content;
use crate::fw_cfg::device::{
    FwCfgDmaRequest, FW_CFG_DMA_CTL_ERROR, FW_CFG_DMA_CTL_READ, FW_CFG_DMA_CTL_SELECT,
    FW_CFG_DMA_CTL_SKIP, FW_CFG_DMA_CTL_WRITE, FW_CFG_IO_DATA, FW_CFG_IO_DMA_ADDRESS,
    FW_CFG_IO_SELECTOR,
};
use crate::fw_cfg::directory;
use crate::fw_cfg::directory::FileView;
use crate::fw_cfg::inner;
use crate::fw_cfg::inner::{
    FW_CFG_F_DMA, QEMU_FW_CFG_ITEM_ETC_E820, QEMU_FW_CFG_ITEM_FILE_DIR,
    QEMU_FW_CFG_ITEM_INTERFACE_VERSION, QEMU_FW_CFG_ITEM_SIGNATURE,
    QEMU_FW_CFG_ITEM_SMP_CPU_COUNT,
};
use crate::guest_memory::{GuestSpace, RamView};
use crate::vm::region::VMMemoryRegion;

verus! {

/// The state of the firmware configuration.
#[verifier::ext_equal]
pub struct FwCfgStateView {
    /// The selected item.
    pub selector: u16,
    /// How much of the selected item has been read.
    pub offset: nat,
    /// The upper half of a DMA address, once it has been written.
    pub dma_high: Option<u32>,
    /// The last complete DMA address.
    pub dma_address: u64,
    /// The items.
    pub items: Map<u16, Seq<u8>>,
}

/// Where the regions lie, as pairs of start and length.
pub open spec fn region_pairs(regions: Seq<VMMemoryRegion>) -> Seq<(u64, u64)> {
    regions.map_values(|r: VMMemoryRegion| (r.gpa, r.len))
}

impl FwCfgStateView {
    /// The position lies within the selected item.
    pub open spec fn wf(self) -> bool {
        self.items.contains_key(self.selector) ==> self.offset <= self.items[self.selector].len()
    }

    /// The state before the machine is set up.
    pub open spec fn initial() -> FwCfgStateView {
        FwCfgStateView {
            selector: 0,
            offset: 0,
            dma_high: None,
            dma_address: 0,
            items: Map::empty(),
        }
    }

    /// The state after the items have been filled in.
    pub open spec fn configured(self, regions: Seq<VMMemoryRegion>, cpu_count: int) -> FwCfgStateView {
        let pairs = region_pairs(regions);
        let e820 = inner::e820_bytes(pairs, pairs.len());
        FwCfgStateView {
            items: map![
                0u16 => seq![0x51u8, 0x45, 0x4d, 0x55],
                1u16 => bytes::le_bytes_u32(2),
                5u16 => bytes::le_bytes_u16((cpu_count % 0x1_0000) as u16),
                0x8000u16 => e820,
                0x19u16 => directory::dir_bytes(
                    seq![FileView { selector: 0x8000, name: "etc/e820"@, content: e820 }],
                ),
            ],
            ..self
        }
    }

    /// The state after an item has been selected.
    pub open spec fn selecting(self, selector: u16) -> FwCfgStateView {
        FwCfgStateView { selector, offset: 0, ..self }
    }

    /// What the next `size` bytes of the selected item are, with zeros past its end or without an
    /// item.
    pub open spec fn next_bytes(self, size: nat) -> Seq<u8> {
        if self.items.contains_key(self.selector) {
            content::window(self.items[self.selector], self.offset as int, size)
        } else {
            Seq::new(size, |i: int| 0u8)
        }
    }

    /// The state after `size` bytes have been read. The position stops at the end of the item.
    pub open spec fn advanced(self, size: nat) -> FwCfgStateView {
        if self.items.contains_key(self.selector) {
            let len = self.items[self.selector].len();
            FwCfgStateView {
                offset: if self.offset + size <= len {
                    self.offset + size
                } else {
                    len
                },
                ..self
            }
        } else {
            self
        }
    }

    /// The state after `size` bytes have been skipped. Without an item, the position moves on.
    pub open spec fn skipped(self, size: nat) -> FwCfgStateView {
        if self.items.contains_key(self.selector) {
            self.advanced(size)
        } else {
            FwCfgStateView { offset: self.offset + size, ..self }
        }
    }

    /// The state after the upper half of a DMA address has been written.
    pub open spec fn dma_high_written(self, value: u32) -> FwCfgStateView {
        FwCfgStateView { dma_high: Some(inner::swapped(value)), ..self }
    }

    /// The DMA address that the lower half completes, where the upper half came right before.
    pub open spec fn completed_address(self, low: u32) -> Option<u64> {
        match self.dma_high {
            Some(high) => Some((high * 0x1_0000_0000 + inner::swapped(low)) as u64),
            None => None,
        }
    }

    /// The state after the lower half of a DMA address has been written.
    pub open spec fn dma_low_written(self, value: u32) -> FwCfgStateView {
        FwCfgStateView {
            dma_high: None,
            dma_address: match self.completed_address(value) {
                Some(address) => address,
                None => self.dma_address,
            },
            ..self
        }
    }
}

/// The state and the memory after a transfer, and whether it was carried out.
pub struct DmaDone {
    pub state: FwCfgStateView,
    pub ram: RamView,
    pub ok: bool,
}

/// The state after the part of a request that comes before the transfer.
pub open spec fn dma_selected(state: FwCfgStateView, request: FwCfgDmaRequest) -> FwCfgStateView {
    if request.selects() {
        state.selecting(request.item())
    } else {
        state
    }
}

/// The transfer that a request asks for, after the selection.
pub open spec fn dma_moved(
    state: FwCfgStateView,
    request: FwCfgDmaRequest,
    ram: RamView,
) -> DmaDone {
    let length = request.length as nat;
    if request.reads() {
        let (next, ok) = ram.store_span(request.address as int, state.next_bytes(length));
        DmaDone { state: state.advanced(length), ram: next, ok }
    } else if request.writes() {
        DmaDone { state, ram, ok: ram.load_span(request.address as int, length) is Some }
    } else if request.skips() {
        DmaDone { state: state.skipped(length), ram, ok: true }
    } else {
        DmaDone { state, ram, ok: true }
    }
}

/// The status word of a transfer: the error bit stands only where nothing was asked for but it.
pub open spec fn dma_status(request: FwCfgDmaRequest) -> u32 {
    if !request.reads() && !request.writes() && !request.skips() && request.has_error() {
        1
    } else {
        0
    }
}

/// What a DMA transfer does whose descriptor lies at `gpa`.
pub open spec fn dma_done(state: FwCfgStateView, gpa: int, ram: RamView) -> DmaDone {
    match ram.load_span(gpa, 16) {
        None => DmaDone { state, ram, ok: false },
        Some(raw) => {
            let request = FwCfgDmaRequest::decoded(raw);
            let moved = dma_moved(dma_selected(state, request), request, ram);
            if !moved.ok {
                moved
            } else {
                let (next, ok) = moved.ram.store_span(
                    gpa,
                    bytes::be_bytes_u32(dma_status(request)),
                );
                DmaDone { state: moved.state, ram: next, ok }
            }
        },
    }
}

/// Where the transfer reads, the position lies within the selected item, and where it skips
/// without an item, the position stays one that can be counted.
pub open spec fn dma_fits(state: FwCfgStateView, gpa: int, ram: RamView) -> bool {
    ram.load_span(gpa, 16) matches Some(raw) ==> {
        let request = FwCfgDmaRequest::decoded(raw);
        let start = dma_selected(state, request);
        &&& request.reads() ==> start.wf()
        &&& request.skips() && !start.items.contains_key(start.selector) ==> start.offset
            + request.length <= usize::MAX
    }
}

/// What a write to a port of the firmware configuration leads to: the state and the memory
/// afterwards, and whether the write was for one of its ports.
pub struct PortWritten {
    pub state: FwCfgStateView,
    pub ram: RamView,
    pub result: Result<bool, VmError>,
}

/// What a write of `value` to a port leads to.
pub open spec fn port_written(
    state: FwCfgStateView,
    port: Port,
    width: AccessWidth,
    value: int,
    ram: RamView,
) -> PortWritten {
    let part = (value % 0x1_0000_0000) as u32;
    if port.0 == 0x510 && width == AccessWidth::Word {
        PortWritten {
            state: state.selecting((value % 0x1_0000) as u16),
            ram,
            result: Ok(true),
        }
    } else if port.0 == 0x514 && width == AccessWidth::Dword {
        PortWritten { state: state.dma_high_written(part), ram, result: Ok(true) }
    } else if port.0 == 0x518 && width == AccessWidth::Dword {
        let after = state.dma_low_written(part);
        match state.completed_address(part) {
            None => PortWritten { state: after, ram, result: Ok(true) },
            Some(address) => {
                let done = dma_done(after, address as int, ram);
                PortWritten {
                    state: done.state,
                    ram: done.ram,
                    result: if done.ok {
                        Ok(true)
                    } else {
                        Err(VmError::InvalidInput)
                    },
                }
            },
        }
    } else {
        PortWritten { state, ram, result: Ok(false) }
    }
}

/// Where the write sets off a transfer, the transfer can be carried out.
pub open spec fn port_write_fits(
    state: FwCfgStateView,
    port: Port,
    width: AccessWidth,
    value: int,
    ram: RamView,
) -> bool {
    let part = (value % 0x1_0000_0000) as u32;
    port.0 == 0x518 && width == AccessWidth::Dword ==> (state.completed_address(
        part,
    ) matches Some(address) ==> dma_fits(state.dma_low_written(part), address as int, ram))
}

/// The firmware configuration of the machine.
pub struct FwCfgState {
    selector: u16,
    offset: usize,
    dma_high: Option<u32>,
    dma_address: u64,
    items: BTreeMap<u16, Vec<u8>>,
}

impl View for FwCfgState {
    type V = FwCfgStateView;

    closed spec fn view(&self) -> FwCfgStateView {
        FwCfgStateView {
            selector: self.selector,
            offset: self.offset as nat,
            dma_high: self.dma_high,
            dma_address: self.dma_address,
            items: self.items@.map_values(|item: Vec<u8>| item@),
        }
    }
}

impl FwCfgState {
    /// The state before the machine is set up.
    pub fn new() -> (s: FwCfgState)
        ensures
            s@ == FwCfgStateView::initial(),
            s@.wf(),
    {
        let s = FwCfgState {
            selector: 0,
            offset: 0,
            dma_high: None,
            dma_address: 0,
            items: BTreeMap::new(),
        };
        assert(s@.items =~= Map::empty());
        s
    }

    /// Puts an item behind a selector.
    fn put(&mut self, selector: u16, item: Vec<u8>)
        ensures
            final(self)@ == (FwCfgStateView {
                items: old(self)@.items.insert(selector, item@),
                ..old(self)@
            }),
    {
        self.items.insert(selector, item);
        assert(self@.items =~= old(self)@.items.insert(selector, item@));
    }

    /// Builds the memory map of the regions.
    pub fn build_e820(memory_regions: &[VMMemoryRegion]) -> (e820: Vec<u8>)
        requires
            inner::regions_fit(region_pairs(memory_regions@)),
        ensures
            e820@ == inner::e820_bytes(region_pairs(memory_regions@), memory_regions@.len()),
    {
        let mut pairs: Vec<(u64, u64)> = Vec::new();
        let mut i: usize = 0;
        while i < memory_regions.len()
            invariant
                i <= memory_regions@.len(),
                pairs@ == region_pairs(memory_regions@).take(i as int),
            decreases memory_regions@.len() - i,
        {
            pairs.push((memory_regions[i].gpa, memory_regions[i].size()));
            i = i + 1;
            assert(pairs@ =~= region_pairs(memory_regions@).take(i as int));
        }
        assert(pairs@ =~= region_pairs(memory_regions@));
        inner::build_e820(pairs.as_slice())
    }

    /// Builds the directory, which lists the memory map.
    fn build_file_dir(&self) -> (dir: Vec<u8>)
        requires
            self@.items.contains_key(0x8000),
        ensures
            dir@ == directory::dir_bytes(
                seq![
                    FileView {
                        selector: 0x8000,
                        name: "etc/e820"@,
                        content: self@.items[0x8000],
                    },
                ],
            ),
    {
        let size: usize = match self.items.get(&QEMU_FW_CFG_ITEM_ETC_E820) {
            Some(item) => {
                assert(self@.items[0x8000] == item@);
                item.len()
            },
            None => 0,
        };
        proof {
            directory::e820_name_fits();
        }
        let mut dir: Vec<u8> = Vec::new();
        bytes::append_u32_be(&mut dir, 1);
        let ghost head = dir@;
        directory::append_entry(&mut dir, size, QEMU_FW_CFG_ITEM_ETC_E820, "etc/e820");
        proof {
            let file = FileView {
                selector: 0x8000,
                name: "etc/e820"@,
                content: self@.items[0x8000],
            };
            let files = seq![file];
            assert(directory::entries_bytes(files, 0) =~= Seq::empty());
            assert(directory::entries_bytes(files, 1) =~= directory::entry_bytes(file));
            assert(head =~= bytes::be_bytes_u32(1));
            assert(dir@ =~= directory::dir_bytes(files));
        }
        dir
    }

    /// Fills in the items for a machine with the given regions of memory and processors.
    pub fn configure(&mut self, memory_regions: &[VMMemoryRegion], cpu_count: usize)
        requires
            inner::regions_fit(region_pairs(memory_regions@)),
        ensures
            final(self)@ == old(self)@.configured(memory_regions@, cpu_count as int),
            old(self)@.offset == 0 ==> final(self)@.wf(),
    {
        self.items.clear();
        assert(self@.items =~= Map::empty());
        let signature: Vec<u8> = vec![0x51, 0x45, 0x4d, 0x55];
        assert(signature@ =~= seq![0x51u8, 0x45, 0x4d, 0x55]);
        self.put(QEMU_FW_CFG_ITEM_SIGNATURE, signature);
        let mut features: Vec<u8> = Vec::new();
        bytes::append_u32_le(&mut features, FW_CFG_F_DMA);
        assert(features@ =~= bytes::le_bytes_u32(2));
        self.put(QEMU_FW_CFG_ITEM_INTERFACE_VERSION, features);
        let mut cpus: Vec<u8> = Vec::new();
        bytes::append_u16_le(&mut cpus, (cpu_count % 0x1_0000) as u16);
        assert(cpus@ =~= bytes::le_bytes_u16((cpu_count % 0x1_0000) as u16));
        self.put(QEMU_FW_CFG_ITEM_SMP_CPU_COUNT, cpus);
        self.put(QEMU_FW_CFG_ITEM_ETC_E820, FwCfgState::build_e820(memory_regions));
        let dir = self.build_file_dir();
        self.put(QEMU_FW_CFG_ITEM_FILE_DIR, dir);
        assert(self@.items =~= old(self)@.configured(memory_regions@, cpu_count as int).items);
    }

    /// Selects an item; reading starts at its beginning.
    pub fn select(&mut self, selector: u16)
        ensures
            final(self)@ == old(self)@.selecting(selector),
            final(self)@.wf(),
    {
        self.selector = selector;
        self.offset = 0;
    }

    /// Reads the next bytes of the selected item, with zeros past its end.
    pub fn read_bytes(&mut self, size: usize) -> (out: Vec<u8>)
        requires
            old(self)@.wf(),
        ensures
            out@ == old(self)@.next_bytes(size as nat),
            final(self)@ == old(self)@.advanced(size as nat),
            final(self)@.wf(),
    {
        let offset: usize = self.offset;
        let (out, end): (Vec<u8>, usize) = match self.items.get(&self.selector) {
            Some(item) => {
                assert(self@.items[self.selector] == item@);
                (
                    content::copy_window(item.as_slice(), offset, size),
                    if size <= item.len() - offset {
                        offset + size
                    } else {
                        item.len()
                    },
                )
            },
            None => {
                let out: Vec<u8> = vec![0; size];
                assert(out@ =~= self@.next_bytes(size as nat));
                (out, offset)
            },
        };
        self.offset = end;
        out
    }

    /// Reads the next bytes of the selected item as one little-endian number.
    pub fn read_port(&mut self, width: AccessWidth) -> (value: u64)
        requires
            old(self)@.wf(),
        ensures
            value == inner::le_value(old(self)@.next_bytes(width.bytes()), width),
            final(self)@ == old(self)@.advanced(width.bytes()),
            final(self)@.wf(),
    {
        let raw = self.read_bytes(width.size());
        match width {
            AccessWidth::Byte => raw[0] as u64,
            AccessWidth::Word => bytes::read_le_u16(raw.as_slice(), 0) as u64,
            AccessWidth::Dword => bytes::read_le_u32(raw.as_slice(), 0) as u64,
            AccessWidth::Qword => bytes::read_le_u64(raw.as_slice(), 0),
        }
    }

    /// Moves the position on, at most to the end of the selected item.
    pub fn skip_bytes(&mut self, size: usize)
        requires
            !old(self)@.items.contains_key(old(self)@.selector) ==> old(self)@.offset + size
                <= usize::MAX,
        ensures
            final(self)@ == old(self)@.skipped(size as nat),
            old(self)@.wf() ==> final(self)@.wf(),
    {
        let offset: usize = self.offset;
        let end: usize = match self.items.get(&self.selector) {
            Some(item) => {
                assert(self@.items[self.selector] == item@);
                if offset <= item.len() && size <= item.len() - offset {
                    offset + size
                } else {
                    item.len()
                }
            },
            None => offset + size,
        };
        self.offset = end;
    }

    /// Whether the position lies within the selected item.
    pub fn in_item(&self) -> (b: bool)
        ensures
            b == self@.wf(),
    {
        match self.items.get(&self.selector) {
            Some(item) => {
                assert(self@.items[self.selector] == item@);
                self.offset <= item.len()
            },
            None => true,
        }
    }

    /// Whether the DMA transfer whose descriptor lies at `descriptor_gpa` can be carried out.
    fn can_execute_dma<M: GuestSpace>(&self, descriptor_gpa: u64, mem: &M) -> (b: bool)
        ensures
            b == dma_fits(self@, descriptor_gpa as int, mem.ram()),
    {
        match mem.read_span(descriptor_gpa, 16) {
            Ok(raw) => {
                let request = FwCfgDmaRequest::parse_slice(raw.as_slice());
                if request.control & FW_CFG_DMA_CTL_SELECT != 0 {
                    true
                } else if request.control & FW_CFG_DMA_CTL_READ != 0 {
                    self.in_item()
                } else if request.control & FW_CFG_DMA_CTL_WRITE == 0 && request.control
                    & FW_CFG_DMA_CTL_SKIP != 0 {
                    self.items.contains_key(&self.selector) || request.length <= usize::MAX
                        - self.offset
                } else {
                    true
                }
            },
            Err(_) => true,
        }
    }

    /// Whether what a write to a port sets off can be carried out.
    pub fn can_write<M: GuestSpace>(
        &self,
        port: Port,
        width: AccessWidth,
        val: u64,
        mem: &M,
    ) -> (b: bool)
        ensures
            b == port_write_fits(self@, port, width, val as int, mem.ram()),
    {
        if port.number() == FW_CFG_IO_DMA_ADDRESS + 4 && width == AccessWidth::Dword {
            match self.dma_high {
                Some(high) => {
                    let low: u32 = inner::swap_u32((val % 0x1_0000_0000) as u32);
                    self.can_execute_dma(high as u64 * 0x1_0000_0000 + low as u64, mem)
                },
                None => true,
            }
        } else {
            true
        }
    }

    /// Reads a port, where the port is the data port.
    pub fn io_read(&mut self, port: Port, width: AccessWidth) -> (r: Option<u64>)
        requires
            port.0 == 0x511 ==> old(self)@.wf(),
        ensures
            r == if port.0 == 0x511 {
                Some(inner::le_value(old(self)@.next_bytes(width.bytes()), width))
            } else {
                None
            },
            final(self)@ == if port.0 == 0x511 {
                old(self)@.advanced(width.bytes())
            } else {
                old(self)@
            },
            old(self)@.wf() ==> final(self)@.wf(),
    {
        if port.number() == FW_CFG_IO_DATA {
            Some(self.read_port(width))
        } else {
            None
        }
    }

    /// Carries out the DMA transfer whose descriptor lies at `descriptor_gpa`.
    pub fn execute_dma<M: GuestSpace>(&mut self, descriptor_gpa: u64, mem: &mut M) -> (r: Result<
        (),
        VmError,
    >)
        requires
            dma_fits(old(self)@, descriptor_gpa as int, old(mem).ram()),
        ensures
            final(self)@ == dma_done(old(self)@, descriptor_gpa as int, old(mem).ram()).state,
            final(mem).ram() == dma_done(old(self)@, descriptor_gpa as int, old(mem).ram()).ram,
            r == VmError::unless_invalid(
                dma_done(old(self)@, descriptor_gpa as int, old(mem).ram()).ok,
            ),
            old(self)@.wf() ==> final(self)@.wf(),
    {
        let raw = match mem.read_span(descriptor_gpa, 16) {
            Ok(raw) => raw,
            Err(err) => return Err(err),
        };
        let request = FwCfgDmaRequest::parse_slice(raw.as_slice());
        let mut status: u32 = 0;
        if request.control & FW_CFG_DMA_CTL_SELECT != 0 {
            self.select((request.control / 0x1_0000) as u16);
        }
        if request.control & FW_CFG_DMA_CTL_READ != 0 {
            let data = self.read_bytes(request.length);
            match mem.write_span(request.address, data.as_slice()) {
                Ok(()) => {},
                Err(err) => return Err(err),
            }
        } else if request.control & FW_CFG_DMA_CTL_WRITE != 0 {
            match mem.read_span(request.address, request.length) {
                Ok(_) => {},
                Err(err) => return Err(err),
            }
        } else if request.control & FW_CFG_DMA_CTL_SKIP != 0 {
            self.skip_bytes(request.length);
        } else if request.control & FW_CFG_DMA_CTL_ERROR != 0 {
            status = FW_CFG_DMA_CTL_ERROR;
        }
        let mut answer: Vec<u8> = Vec::new();
        bytes::append_u32_be(&mut answer, status);
        assert(answer@ =~= bytes::be_bytes_u32(status));
        mem.write_span(descriptor_gpa, answer.as_slice())
    }

    /// Writes a port, and says whether it is one of the ports of the firmware configuration. The
    /// lower half of a DMA address, right after the upper half, sets off the transfer.
    pub fn io_write<M: GuestSpace>(
        &mut self,
        port: Port,
        width: AccessWidth,
        val: u64,
        mem: &mut M,
    ) -> (r: Result<bool, VmError>)
        requires
            port_write_fits(old(self)@, port, width, val as int, old(mem).ram()),
        ensures
            ({
                let w = port_written(old(self)@, port, width, val as int, old(mem).ram());
                &&& final(self)@ == w.state
                &&& final(mem).ram() == w.ram
                &&& r == w.result
            }),
            old(self)@.wf() ==> final(self)@.wf(),
    {
        let number: u16 = port.number();
        if number == FW_CFG_IO_SELECTOR && width == AccessWidth::Word {
            self.select((val % 0x1_0000) as u16);
            Ok(true)
        } else if number == FW_CFG_IO_DMA_ADDRESS && width == AccessWidth::Dword {
            self.dma_high = Some(inner::swap_u32((val % 0x1_0000_0000) as u32));
            Ok(true)
        } else if number == FW_CFG_IO_DMA_ADDRESS + 4 && width == AccessWidth::Dword {
            let low: u32 = inner::swap_u32((val % 0x1_0000_0000) as u32);
            let high = self.dma_high;
            self.dma_high = None;
            match high {
                Some(high) => {
                    let address: u64 = high as u64 * 0x1_0000_0000 + low as u64;
                    self.dma_address = address;
                    match self.execute_dma(address, mem) {
                        Ok(()) => Ok(true),
                        Err(err) => Err(err),
                    }
                },
                None => Ok(true),
            }
        } else {
            Ok(false)
        }
    }
}

} // verus!
