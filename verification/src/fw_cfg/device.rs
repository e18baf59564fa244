//! The device behind its ports, and its transfers by DMA.

use vstd::prelude::*;

use crate::bus::{AccessWidth, Port, PortRange};
use crate::bytes;
use crate::error::VmError;
use crate::fw_cfg::content::FwCfgContent;
use crate::fw_cfg::directory;
use crate::fw_cfg::inner;
use crate::fw_cfg::inner::{FwCfgInner, FwCfgView};
use crate::guest_memory::{GuestMemory, RamView};

verus! {

/// The port that selects an item.
pub const FW_CFG_IO_SELECTOR: u16 = 0x510;

/// The port that the selected item is read from.
pub const FW_CFG_IO_DATA: u16 = 0x511;

/// The port of the upper half of the address of a DMA descriptor; the lower half follows four
/// ports later.
pub const FW_CFG_IO_DMA_ADDRESS: u16 = 0x514;

/// Set in the control word of a transfer that has failed.
pub const FW_CFG_DMA_CTL_ERROR: u32 = 1;

/// Asks for the selected item to be read.
pub const FW_CFG_DMA_CTL_READ: u32 = 2;

/// Asks for bytes of the selected item to be skipped.
pub const FW_CFG_DMA_CTL_SKIP: u32 = 4;

/// Asks for the item that the upper half of the control word names to be selected.
pub const FW_CFG_DMA_CTL_SELECT: u32 = 8;

/// Asks for the selected item to be written.
pub const FW_CFG_DMA_CTL_WRITE: u32 = 16;

/// What a DMA descriptor asks for. Its fields are big-endian in memory.
#[derive(Clone, Copy, Debug, PartialEq, Eq, Structural)]
pub struct FwCfgDmaRequest {
    pub control: u32,
    pub length: usize,
    pub address: u64,
}

impl FwCfgDmaRequest {
    /// The request that the 16 bytes of a descriptor make.
    pub open spec fn decoded(raw: Seq<u8>) -> FwCfgDmaRequest {
        FwCfgDmaRequest {
            control: bytes::be_u32_at(raw, 0),
            length: bytes::be_u32_at(raw, 4) as usize,
            address: bytes::be_u64_at(raw, 8),
        }
    }

    /// The request selects an item first.
    pub open spec fn selects(self) -> bool {
        self.control & FW_CFG_DMA_CTL_SELECT != 0
    }

    /// The item that the request selects.
    pub open spec fn item(self) -> u16 {
        (self.control / 0x1_0000) as u16
    }

    /// The request reads.
    pub open spec fn reads(self) -> bool {
        self.control & FW_CFG_DMA_CTL_READ != 0
    }

    /// The request writes: it does not read as well.
    pub open spec fn writes(self) -> bool {
        !self.reads() && self.control & FW_CFG_DMA_CTL_WRITE != 0
    }

    /// The request skips: it neither reads nor writes as well.
    pub open spec fn skips(self) -> bool {
        !self.reads() && !self.writes() && self.control & FW_CFG_DMA_CTL_SKIP != 0
    }

    /// The request comes with the error bit, which the answer then has too.
    pub open spec fn has_error(self) -> bool {
        self.control & FW_CFG_DMA_CTL_ERROR != 0
    }

    /// Reads the 16 bytes of a descriptor.
    pub fn parse(descriptor: [u8; 16]) -> (request: FwCfgDmaRequest)
        ensures
            request == FwCfgDmaRequest::decoded(descriptor@),
            request.length == bytes::be_u32_at(descriptor@, 4),
    {
        FwCfgDmaRequest::parse_slice(descriptor.as_slice())
    }

    /// Reads the 16 bytes of a descriptor.
    pub fn parse_slice(descriptor: &[u8]) -> (request: FwCfgDmaRequest)
        requires
            descriptor@.len() == 16,
        ensures
            request == FwCfgDmaRequest::decoded(descriptor@),
            request.length == bytes::be_u32_at(descriptor@, 4),
    {
        FwCfgDmaRequest {
            control: bytes::read_be_u32(descriptor, 0),
            length: bytes::read_be_u32(descriptor, 4) as usize,
            address: bytes::read_be_u64(descriptor, 8),
        }
    }
}

/// The device and the memory after a transfer, and whether it was carried out.
#[verifier::ext_equal]
pub struct DmaDone {
    pub dev: FwCfgView,
    pub ram: RamView,
    pub ok: bool,
}

/// The device after the part of a request that comes before the transfer.
pub open spec fn dma_selected(dev: FwCfgView, request: FwCfgDmaRequest) -> FwCfgView {
    if request.selects() {
        dev.selecting(request.item())
    } else {
        dev
    }
}

/// The transfer that a request asks for, after the selection.
pub open spec fn dma_moved(dev: FwCfgView, request: FwCfgDmaRequest, ram: RamView) -> DmaDone {
    let length = request.length as nat;
    if request.reads() {
        let (next, ok) = ram.store(request.address as int, dev.next_bytes(length));
        DmaDone { dev: dev.advanced(length), ram: next, ok }
    } else if request.writes() {
        match ram.load(request.address as int, length) {
            Some(data) => DmaDone { dev: dev.written(data), ram, ok: true },
            None => DmaDone { dev, ram, ok: false },
        }
    } else if request.skips() {
        DmaDone { dev: dev.skipped(length), ram, ok: true }
    } else {
        DmaDone { dev, ram, ok: true }
    }
}

/// What a DMA transfer does whose descriptor lies at `gpa`: it selects, moves bytes, and puts the
/// status over the control word of the descriptor.
pub open spec fn dma_done(dev: FwCfgView, gpa: int, ram: RamView) -> DmaDone {
    match ram.load(gpa, 16) {
        None => DmaDone { dev, ram, ok: false },
        Some(raw) => {
            let request = FwCfgDmaRequest::decoded(raw);
            let moved = dma_moved(dma_selected(dev, request), request, ram);
            if !moved.ok {
                moved
            } else {
                let status: u32 = if request.has_error() {
                    1
                } else {
                    0
                };
                let (next, ok) = moved.ram.store(gpa, bytes::be_bytes_u32(status));
                DmaDone { ram: next, ok, ..moved }
            }
        },
    }
}

/// Where the transfer skips without an item, the position of the reader stays one that can be
/// counted.
pub open spec fn dma_fits(dev: FwCfgView, gpa: int, ram: RamView) -> bool {
    ram.load(gpa, 16) matches Some(raw) ==> {
        let request = FwCfgDmaRequest::decoded(raw);
        let start = dma_selected(dev, request);
        request.skips() && start.selected() is None ==> start.offset + request.length
            <= usize::MAX
    }
}

/// The firmware configuration device. Selector, data and DMA address have ports of their own. A
/// DMA address that was written waits until the transfer is carried out.
pub struct FwCfgDevice {
    inner: FwCfgInner,
}

impl View for FwCfgDevice {
    type V = FwCfgView;

    closed spec fn view(&self) -> FwCfgView {
        self.inner@
    }
}

impl FwCfgDevice {
    /// A device that is not configured.
    pub fn new() -> (dev: FwCfgDevice)
        ensures
            dev@ == FwCfgView::initial(),
            dev@.wf(),
    {
        FwCfgDevice { inner: FwCfgInner::new() }
    }

    /// Fills the device for a machine with the given regions of memory and processors.
    pub fn configure(&mut self, memory_regions: &[(u64, u64)], cpu_count: usize)
        requires
            inner::regions_fit(memory_regions@),
        ensures
            final(self)@ == old(self)@.configured(memory_regions@, cpu_count as int),
            final(self)@.wf(),
    {
        self.inner.configure(memory_regions, cpu_count);
    }

    /// Hands out the address of the DMA descriptor that waits, and forgets it.
    pub fn take_pending_dma(&mut self) -> (r: Option<u64>)
        ensures
            r == old(self)@.pending_dma,
            final(self)@ == (FwCfgView { pending_dma: None, ..old(self)@ }),
            old(self)@.wf() ==> final(self)@.wf(),
    {
        self.inner.take_pending_dma()
    }

    /// Reads the next bytes of the selected item, with zeros past its end.
    pub fn read_string_bytes(&mut self, count: usize) -> (out: Vec<u8>)
        ensures
            out@ == old(self)@.next_bytes(count as nat),
            final(self)@ == old(self)@.advanced(count as nat),
            old(self)@.wf() ==> final(self)@.wf(),
    {
        self.inner.read_bytes(count)
    }

    /// Whether the DMA transfer whose descriptor lies at `dma_gpa` leaves the position of the
    /// reader one that can be counted.
    pub fn can_execute_dma<M: GuestMemory>(&self, dma_gpa: u64, mem: &M) -> (b: bool)
        ensures
            b == dma_fits(self@, dma_gpa as int, mem.ram()),
    {
        match mem.read_buffer(dma_gpa, 16) {
            Ok(raw) => {
                let request = FwCfgDmaRequest::parse_slice(raw.as_slice());
                let skips: bool = request.control & FW_CFG_DMA_CTL_READ == 0 && request.control
                    & FW_CFG_DMA_CTL_WRITE == 0 && request.control & FW_CFG_DMA_CTL_SKIP != 0;
                request.control & FW_CFG_DMA_CTL_SELECT != 0 || !skips || self.inner.can_skip(
                    request.length,
                )
            },
            Err(_) => true,
        }
    }

    /// Carries out the DMA transfer whose descriptor lies at `dma_gpa`.
    pub fn execute_dma<M: GuestMemory>(&mut self, dma_gpa: u64, mem: &mut M) -> (r: Result<
        (),
        VmError,
    >)
        requires
            dma_fits(old(self)@, dma_gpa as int, old(mem).ram()),
        ensures
            final(self)@ == dma_done(old(self)@, dma_gpa as int, old(mem).ram()).dev,
            final(mem).ram() == dma_done(old(self)@, dma_gpa as int, old(mem).ram()).ram,
            r == VmError::unless_invalid(
                dma_done(old(self)@, dma_gpa as int, old(mem).ram()).ok,
            ),
            old(self)@.wf() ==> final(self)@.wf(),
    {
        let raw = match mem.read_buffer(dma_gpa, 16) {
            Ok(raw) => raw,
            Err(err) => return Err(err),
        };
        let request = FwCfgDmaRequest::parse_slice(raw.as_slice());
        if request.control & FW_CFG_DMA_CTL_SELECT != 0 {
            self.inner.select((request.control / 0x1_0000) as u16);
        }
        if request.control & FW_CFG_DMA_CTL_READ != 0 {
            let data = self.inner.read_bytes(request.length);
            match mem.write_buffer(request.address, data.as_slice()) {
                Ok(()) => {},
                Err(err) => return Err(err),
            }
        } else if request.control & FW_CFG_DMA_CTL_WRITE != 0 {
            let data = match mem.read_buffer(request.address, request.length) {
                Ok(data) => data,
                Err(err) => return Err(err),
            };
            self.inner.write_bytes(data.as_slice());
        } else if request.control & FW_CFG_DMA_CTL_SKIP != 0 {
            self.inner.skip_bytes(request.length);
        }
        let status: u32 = if request.control & FW_CFG_DMA_CTL_ERROR != 0 {
            FW_CFG_DMA_CTL_ERROR
        } else {
            0
        };
        let mut answer: Vec<u8> = Vec::new();
        bytes::append_u32_be(&mut answer, status);
        assert(answer@ =~= bytes::be_bytes_u32(status));
        mem.write_buffer(dma_gpa, answer.as_slice())
    }

    /// Adds a file and returns its selector. A name that does not fit a directory entry, or a
    /// file for which no selector is left, is refused.
    pub fn add_file_item(&mut self, name: &str, content: FwCfgContent) -> (r: Result<u16, VmError>)
        requires
            old(self)@.wf(),
        ensures
            r == VmError::or_invalid(
                if directory::name_bytes(name@).len() >= 56 {
                    None
                } else {
                    inner::free_selector(old(self)@.files, 0x20)
                },
            ),
            final(self)@ == match r {
                Ok(selector) => old(self)@.with_file(selector, name@, content.bytes()),
                Err(_) => old(self)@,
            },
            final(self)@.wf(),
    {
        self.inner.add_file_item(name, content)
    }

    /// The ports of the device.
    pub fn address_range(&self) -> (range: PortRange)
        ensures
            range == (PortRange { start: Port(0x510), end: Port(0x518) }),
    {
        PortRange::new(Port::new(FW_CFG_IO_SELECTOR), Port::new(FW_CFG_IO_DMA_ADDRESS + 4))
    }

    /// Reads a port. Every port but the data port reads as zero.
    pub fn handle_read(&mut self, addr: Port, width: AccessWidth) -> (r: Result<u64, VmError>)
        ensures
            r == Ok::<u64, VmError>(
                if addr.0 == 0x511 {
                    inner::le_value(old(self)@.next_bytes(width.bytes()), width)
                } else {
                    0
                },
            ),
            final(self)@ == if addr.0 == 0x511 {
                old(self)@.advanced(width.bytes())
            } else {
                old(self)@
            },
            old(self)@.wf() ==> final(self)@.wf(),
    {
        if addr.number() == FW_CFG_IO_DATA {
            Ok(self.inner.read_port(width))
        } else {
            Ok(0)
        }
    }

    /// Writes a port. A word to the selector port selects an item, and a double word to one of
    /// the DMA address ports is half of an address. Any other write is ignored.
    pub fn handle_write(&mut self, addr: Port, width: AccessWidth, val: usize) -> (r: Result<
        (),
        VmError,
    >)
        ensures
            r == Ok::<(), VmError>(()),
            final(self)@ == if addr.0 == 0x510 && width == AccessWidth::Word {
                old(self)@.selecting((val as int % 0x1_0000) as u16)
            } else if (addr.0 == 0x514 || addr.0 == 0x518) && width == AccessWidth::Dword {
                old(self)@.dma_part((val as int % 0x1_0000_0000) as u32, addr.0 == 0x514)
            } else {
                old(self)@
            },
            old(self)@.wf() ==> final(self)@.wf(),
    {
        let number: u16 = addr.number();
        if number == FW_CFG_IO_SELECTOR && width == AccessWidth::Word {
            self.inner.select((val % 0x1_0000) as u16);
        } else if (number == FW_CFG_IO_DMA_ADDRESS || number == FW_CFG_IO_DMA_ADDRESS + 4) && width
            == AccessWidth::Dword {
            self.inner.write_dma_address_part(val, number == FW_CFG_IO_DMA_ADDRESS);
        }
        Ok(())
    }
}

impl Default for FwCfgDevice {
    fn default() -> (dev: FwCfgDevice)
        ensures
            dev@ == FwCfgView::initial(),
            dev@.wf(),
    {
        FwCfgDevice::new()
    }
}

} // verus!
