//! The block device that the guest firmware drives on the ports of the host: addresses that the
//! guest puts into the queue are replaced by addresses of the host.

use vstd::prelude::*;

use crate::bus::{AccessWidth, Port};
use crate::bytes;
use crate::error::VmError;
use crate::guest_memory::{GuestSpace, RamView};
use crate::virtio_blk::queue::{Descriptor, LegacyQueue, VIRTQ_DESC_F_NEXT};

verus! {

/// The first port of the device.
pub const OVMF_VIRTIO_BLK_IO_BASE: u16 = 0x6000;

/// How many ports the device has.
pub const OVMF_VIRTIO_BLK_IO_SIZE: u16 = 0x80;

/// The port of the page of the queue.
pub const OVMF_VIRTIO_BLK_QUEUE_PFN: u16 = 0x6008;

/// The port of the number of descriptors of the queue.
pub const OVMF_VIRTIO_BLK_QUEUE_SIZE: u16 = 0x600c;

/// The port that notifies the device.
pub const OVMF_VIRTIO_BLK_QUEUE_NOTIFY: u16 = 0x6010;

/// How many descriptors of a chain are looked at.
pub const MAX_REWRITTEN_DESCRIPTORS: u16 = 8;

/// The port is one of the device.
pub open spec fn is_blk_port(port: Port) -> bool {
    0x6000 <= port.0 < 0x6080
}

/// The part of a value that goes out in an access of the width.
pub open spec fn narrowed(value: int, width: AccessWidth) -> u32 {
    match width {
        AccessWidth::Byte => (value % 0x100) as u32,
        AccessWidth::Word => (value % 0x1_0000) as u32,
        _ => (value % 0x1_0000_0000) as u32,
    }
}

/// What is known of the queue of the device.
#[derive(Clone, Copy, Debug, PartialEq, Eq, Structural)]
pub struct OvmfVirtioBlkIoState {
    /// The page of the queue in the guest, zero while it is not set.
    pub queue_pfn: u32,
    /// The number of descriptors that the device has told the guest.
    pub queue_size: u16,
    /// The page of the queue in the host.
    pub translated_queue_pfn: u32,
}

/// What the rings of the queue hold before a notification.
#[derive(Clone, Copy, Debug, PartialEq, Eq, Structural)]
pub struct QueueSnapshot {
    pub avail_flags: u16,
    pub avail_idx: u16,
    pub avail_head: u16,
    pub used_flags: u16,
    pub used_idx: u16,
}

/// A descriptor with another address.
pub open spec fn with_address(raw: Seq<u8>, addr: u64) -> Seq<u8> {
    bytes::le_bytes_u64(addr) + raw.subrange(8, 16)
}

/// Replaces the address of one descriptor by the one in the host, where there is one. The
/// descriptor stays as it is otherwise.
pub open spec fn readdressed(raw: Seq<u8>, gpa: int, ram: RamView) -> (RamView, bool) {
    match ram.translation(Descriptor::decoded(raw).addr as int) {
        Some(hpa) => ram.store_span(gpa, with_address(raw, hpa as u64)),
        None => (ram, true),
    }
}

/// Follows the chain from `next` on for at most `left` descriptors, and replaces the address of
/// each of them. A descriptor outside the queue ends the chain.
pub open spec fn walked(queue: LegacyQueue, next: u16, left: nat, ram: RamView) -> (RamView, bool)
    decreases left,
{
    if left == 0 || next >= queue.size {
        (ram, true)
    } else {
        let gpa = queue.table() + next * 16;
        match ram.load_span(gpa, 16) {
            None => (ram, false),
            Some(raw) => {
                let (after, ok) = readdressed(raw, gpa, ram);
                if !ok {
                    (after, false)
                } else if !Descriptor::decoded(raw).has_next() {
                    (after, true)
                } else {
                    walked(queue, Descriptor::decoded(raw).next, (left - 1) as nat, after)
                }
            },
        }
    }
}

impl OvmfVirtioBlkIoState {
    /// Nothing is known of the queue.
    pub open spec fn initial() -> OvmfVirtioBlkIoState {
        OvmfVirtioBlkIoState { queue_pfn: 0, queue_size: 0, translated_queue_pfn: 0 }
    }

    /// The queue is set up.
    pub open spec fn ready(self) -> bool {
        self.queue_pfn != 0 && self.queue_size != 0
    }

    /// The queue as the guest has laid it out.
    pub open spec fn queue(self) -> LegacyQueue {
        LegacyQueue { size: self.queue_size, pfn: self.queue_pfn, last_avail_idx: 0 }
    }

    /// How many descriptors of a chain are looked at.
    pub open spec fn chain_limit(self) -> nat {
        if self.queue_size <= 8 {
            self.queue_size as nat
        } else {
            8
        }
    }

    /// The page in the host for a page of the guest, where the page is mapped.
    pub open spec fn host_page(pfn: u32, ram: RamView) -> Option<u32> {
        match ram.translation(pfn * 0x1000) {
            Some(hpa) => Some((hpa / 0x1000 % 0x1_0000_0000) as u32),
            None => None,
        }
    }

    /// What is known after the guest has set the page of the queue.
    pub open spec fn page_set(self, pfn: u32, ram: RamView) -> OvmfVirtioBlkIoState {
        match OvmfVirtioBlkIoState::host_page(pfn, ram) {
            Some(translated) => OvmfVirtioBlkIoState {
                queue_pfn: pfn,
                translated_queue_pfn: translated,
                ..self
            },
            None => self,
        }
    }

    /// The memory after the descriptors of the last request have been given the addresses of the
    /// host, and whether that worked.
    pub open spec fn rewritten(self, ram: RamView) -> (RamView, bool) {
        if !self.ready() {
            (ram, true)
        } else {
            match ram.load_span(self.queue().avail_ring(), 6) {
                None => (ram, false),
                Some(avail) => {
                    let last = (bytes::le_u16_at(avail, 2) - 1) % 0x1_0000;
                    let slot = last % self.queue_size as int;
                    match ram.load_span(self.queue().avail_ring() + 4 + slot * 2, 2) {
                        None => (ram, false),
                        Some(head) => walked(
                            self.queue(),
                            bytes::le_u16_at(head, 0),
                            self.chain_limit(),
                            ram,
                        ),
                    }
                },
            }
        }
    }

    /// What the rings hold: nothing where the queue is not set up, an error where they cannot be
    /// read.
    pub open spec fn snapshot(self, ram: RamView) -> Result<Option<QueueSnapshot>, VmError> {
        if !self.ready() {
            Ok(None)
        } else {
            match ram.load_span(self.queue().avail_ring(), 6) {
                None => Err(VmError::InvalidInput),
                Some(avail) => match ram.load_span(self.queue().used_ring(), 4) {
                    None => Err(VmError::InvalidInput),
                    Some(used) => Ok(
                        Some(
                            QueueSnapshot {
                                avail_flags: bytes::le_u16_at(avail, 0),
                                avail_idx: bytes::le_u16_at(avail, 2),
                                avail_head: bytes::le_u16_at(avail, 4),
                                used_flags: bytes::le_u16_at(used, 0),
                                used_idx: bytes::le_u16_at(used, 2),
                            },
                        ),
                    ),
                },
            }
        }
    }

    /// Nothing is known of the queue.
    pub fn new() -> (s: OvmfVirtioBlkIoState)
        ensures
            s == OvmfVirtioBlkIoState::initial(),
    {
        OvmfVirtioBlkIoState { queue_pfn: 0, queue_size: 0, translated_queue_pfn: 0 }
    }

    /// Finds the page in the host for the page that the guest gives to the queue.
    pub fn translate_queue_pfn<M: GuestSpace>(&mut self, queue_pfn: u32, mem: &M) -> (r: Option<
        u32,
    >)
        ensures
            r == OvmfVirtioBlkIoState::host_page(queue_pfn, mem.ram()),
            *final(self) == old(self).page_set(queue_pfn, mem.ram()),
    {
        match mem.translate(queue_pfn as u64 * 0x1000) {
            Some(queue_hpa) => {
                let translated: u32 = (queue_hpa / 0x1000 % 0x1_0000_0000) as u32;
                self.queue_pfn = queue_pfn;
                self.translated_queue_pfn = translated;
                Some(translated)
            },
            None => None,
        }
    }

    /// Gives the descriptors of the last request the addresses of the host.
    pub fn rewrite_descriptors<M: GuestSpace>(&self, mem: &mut M) -> (r: Result<(), VmError>)
        ensures
            final(mem).ram() == self.rewritten(old(mem).ram()).0,
            r == VmError::unless_invalid(self.rewritten(old(mem).ram()).1),
    {
        if self.queue_pfn == 0 || self.queue_size == 0 {
            return Ok(());
        }
        let queue = LegacyQueue { size: self.queue_size, pfn: self.queue_pfn, last_avail_idx: 0 };
        let avail_gpa: u64 = match queue.avail_ring_gpa() {
            Ok(gpa) => gpa,
            Err(err) => return Err(err),
        };
        let avail = match mem.read_span(avail_gpa, 6) {
            Ok(avail) => avail,
            Err(err) => return Err(err),
        };
        let avail_idx: u16 = bytes::read_le_u16(avail.as_slice(), 2);
        let slot: u16 = avail_idx.wrapping_sub(1) % self.queue_size;
        let head_bytes = match mem.read_span(avail_gpa + 4 + slot as u64 * 2, 2) {
            Ok(head) => head,
            Err(err) => return Err(err),
        };
        let head: u16 = bytes::read_le_u16(head_bytes.as_slice(), 0);
        let limit: u16 = if self.queue_size <= MAX_REWRITTEN_DESCRIPTORS {
            self.queue_size
        } else {
            MAX_REWRITTEN_DESCRIPTORS
        };
        proof {
            assert((avail_idx - 1) % 0x1_0000 == if avail_idx == 0 {
                0xffff
            } else {
                avail_idx - 1
            });
        }
        walk_chain(&queue, head, limit, mem)
    }

    /// Reads what the rings hold before a notification.
    pub fn snapshot_queue<M: GuestSpace>(&self, mem: &M) -> (r: Result<
        Option<QueueSnapshot>,
        VmError,
    >)
        ensures
            r == self.snapshot(mem.ram()),
    {
        if self.queue_pfn == 0 || self.queue_size == 0 {
            return Ok(None);
        }
        let queue = LegacyQueue { size: self.queue_size, pfn: self.queue_pfn, last_avail_idx: 0 };
        let avail_gpa: u64 = match queue.avail_ring_gpa() {
            Ok(gpa) => gpa,
            Err(err) => return Err(err),
        };
        let used_gpa: u64 = match queue.used_ring_gpa() {
            Ok(gpa) => gpa,
            Err(err) => return Err(err),
        };
        let avail = match mem.read_span(avail_gpa, 6) {
            Ok(avail) => avail,
            Err(err) => return Err(err),
        };
        let used = match mem.read_span(used_gpa, 4) {
            Ok(used) => used,
            Err(err) => return Err(err),
        };
        Ok(
            Some(
                QueueSnapshot {
                    avail_flags: bytes::read_le_u16(avail.as_slice(), 0),
                    avail_idx: bytes::read_le_u16(avail.as_slice(), 2),
                    avail_head: bytes::read_le_u16(avail.as_slice(), 4),
                    used_flags: bytes::read_le_u16(used.as_slice(), 0),
                    used_idx: bytes::read_le_u16(used.as_slice(), 2),
                },
            ),
        )
    }

    /// Takes note of what a read of a port of the device gave: the number of descriptors is kept.
    pub fn note_read(&mut self, port: Port, width: AccessWidth, value: u64)
        ensures
            *final(self) == if port.0 == 0x600c && width == AccessWidth::Word {
                OvmfVirtioBlkIoState { queue_size: (value as int % 0x1_0000) as u16, ..*old(self) }
            } else {
                *old(self)
            },
    {
        if port.number() == OVMF_VIRTIO_BLK_QUEUE_SIZE && width == AccessWidth::Word {
            self.queue_size = (value % 0x1_0000) as u16;
        }
    }
}

/// Follows a chain of descriptors and gives each of them the address of the host.
fn walk_chain<M: GuestSpace>(queue: &LegacyQueue, head: u16, limit: u16, mem: &mut M) -> (r: Result<
    (),
    VmError,
>)
    requires
        queue.pfn != 0,
    ensures
        final(mem).ram() == walked(*queue, head, limit as nat, old(mem).ram()).0,
        r == VmError::unless_invalid(walked(*queue, head, limit as nat, old(mem).ram()).1),
{
    let table: u64 = match queue.desc_table_gpa() {
        Ok(table) => table,
        Err(err) => return Err(err),
    };
    let mut next: u16 = head;
    let mut left: u16 = limit;
    let ghost whole = walked(*queue, head, limit as nat, mem.ram());
    while left > 0 && next < queue.size
        invariant
            table == queue.table(),
            table <= 0xfff_ffff_f000,
            whole == walked(*queue, head, limit as nat, old(mem).ram()),
            whole == walked(*queue, next, left as nat, mem.ram()),
        decreases left,
    {
        let desc_gpa: u64 = table + next as u64 * 16;
        let raw = match mem.read_span(desc_gpa, 16) {
            Ok(raw) => raw,
            Err(err) => return Err(err),
        };
        let addr: u64 = bytes::read_le_u64(raw.as_slice(), 0);
        let flags: u16 = bytes::read_le_u16(raw.as_slice(), 12);
        let desc_next: u16 = bytes::read_le_u16(raw.as_slice(), 14);
        match mem.translate(addr) {
            Some(hpa) => {
                let mut desc: Vec<u8> = Vec::new();
                bytes::append_u64_le(&mut desc, hpa);
                let mut i: usize = 8;
                while i < 16
                    invariant
                        8 <= i <= 16,
                        raw@.len() == 16,
                        desc@ == bytes::le_bytes_u64(hpa) + raw@.subrange(8, i as int),
                    decreases 16 - i,
                {
                    desc.push(raw[i]);
                    i = i + 1;
                    assert(desc@ =~= bytes::le_bytes_u64(hpa) + raw@.subrange(8, i as int));
                }
                match mem.write_span(desc_gpa, desc.as_slice()) {
                    Ok(()) => {},
                    Err(err) => return Err(err),
                }
            },
            None => {},
        }
        if flags & VIRTQ_DESC_F_NEXT == 0 {
            return Ok(());
        }
        next = desc_next;
        left = left - 1;
    }
    Ok(())
}

/// What is to go out to a port of the host, and what the rings held before a notification.
#[derive(Clone, Copy, Debug, PartialEq, Eq, Structural)]
pub struct HostWrite {
    pub value: u32,
    pub snapshot: Option<QueueSnapshot>,
}

/// What a write to a port leads to: what is known of the queue and the memory afterwards, and
/// what is to go out to the port of the host, where the port is one of the device.
pub struct BlkWritten {
    pub state: OvmfVirtioBlkIoState,
    pub ram: RamView,
    pub result: Result<Option<HostWrite>, VmError>,
}

/// What a write of `value` to a port leads to.
pub open spec fn blk_written(
    state: OvmfVirtioBlkIoState,
    port: Port,
    width: AccessWidth,
    value: int,
    ram: RamView,
) -> BlkWritten {
    if !is_blk_port(port) {
        BlkWritten { state, ram, result: Ok(None) }
    } else if width == AccessWidth::Qword {
        BlkWritten { state, ram, result: Err(VmError::InvalidInput) }
    } else if port.0 == 0x6008 && width == AccessWidth::Dword {
        let pfn = (value % 0x1_0000_0000) as u32;
        BlkWritten {
            state: state.page_set(pfn, ram),
            ram,
            result: Ok(
                Some(
                    HostWrite {
                        value: match OvmfVirtioBlkIoState::host_page(pfn, ram) {
                            Some(translated) => translated,
                            None => pfn,
                        },
                        snapshot: None,
                    },
                ),
            ),
        }
    } else if port.0 == 0x6010 && width == AccessWidth::Word {
        let (after, ok) = state.rewritten(ram);
        BlkWritten {
            state,
            ram: after,
            result: if !ok {
                Err(VmError::InvalidInput)
            } else {
                match state.snapshot(after) {
                    Err(err) => Err(err),
                    Ok(snapshot) => Ok(
                        Some(HostWrite { value: narrowed(value, width), snapshot }),
                    ),
                }
            },
        }
    } else {
        BlkWritten {
            state,
            ram,
            result: Ok(Some(HostWrite { value: narrowed(value, width), snapshot: None })),
        }
    }
}

/// The part of a value that goes out in an access of the width.
pub fn narrow(value: u64, width: AccessWidth) -> (r: u32)
    ensures
        r == narrowed(value as int, width),
{
    match width {
        AccessWidth::Byte => (value % 0x100) as u32,
        AccessWidth::Word => (value % 0x1_0000) as u32,
        _ => (value % 0x1_0000_0000) as u32,
    }
}

impl OvmfVirtioBlkIoState {
    /// Takes a write to a port, and says what is to go out to the port of the host. The page of
    /// the queue is replaced by the one in the host, and a notification gives the descriptors of
    /// the last request the addresses of the host first.
    pub fn io_write<M: GuestSpace>(
        &mut self,
        port: Port,
        width: AccessWidth,
        val: u64,
        mem: &mut M,
    ) -> (r: Result<Option<HostWrite>, VmError>)
        ensures
            ({
                let w = blk_written(*old(self), port, width, val as int, old(mem).ram());
                &&& *final(self) == w.state
                &&& final(mem).ram() == w.ram
                &&& r == w.result
            }),
    {
        let number: u16 = port.number();
        if number < OVMF_VIRTIO_BLK_IO_BASE || number >= OVMF_VIRTIO_BLK_IO_BASE
            + OVMF_VIRTIO_BLK_IO_SIZE {
            return Ok(None);
        }
        let mut forwarded: u64 = val;
        let mut snapshot: Option<QueueSnapshot> = None;
        if number == OVMF_VIRTIO_BLK_QUEUE_PFN && width == AccessWidth::Dword {
            match self.translate_queue_pfn((val % 0x1_0000_0000) as u32, mem) {
                Some(translated) => {
                    forwarded = translated as u64;
                },
                None => {},
            }
        }
        if number == OVMF_VIRTIO_BLK_QUEUE_NOTIFY && width == AccessWidth::Word {
            match self.rewrite_descriptors(mem) {
                Ok(()) => {},
                Err(err) => return Err(err),
            }
            match self.snapshot_queue(mem) {
                Ok(s) => {
                    snapshot = s;
                },
                Err(err) => return Err(err),
            }
        }
        if width == AccessWidth::Qword {
            return Err(VmError::InvalidInput);
        }
        Ok(Some(HostWrite { value: narrow(forwarded, width), snapshot }))
    }
}

/// A descriptor that is given another address keeps its length, its flags and its successor.
pub proof fn readdressing_keeps_the_rest(raw: Seq<u8>, addr: u64)
    requires
        raw.len() == 16,
    ensures
        with_address(raw, addr).len() == 16,
        Descriptor::decoded(with_address(raw, addr)) == (Descriptor {
            addr,
            ..Descriptor::decoded(raw)
        }),
{
    let out = with_address(raw, addr);
    assert(out.subrange(0, 8) =~= bytes::le_bytes_u64(addr));
    bytes::le_round_trip_u64(out, 0, addr);
    assert(forall|k: int| 8 <= k < 16 ==> out[k] == raw[k]);
}

/// Giving descriptors the addresses of the host writes nothing outside the descriptor table, and
/// maps and unmaps nothing.
pub proof fn rewriting_stays_in_table(queue: LegacyQueue, next: u16, left: nat, ram: RamView)
    ensures
        ({
            let after = walked(queue, next, left, ram).0;
            &&& after.bytes.dom() == ram.bytes.dom()
            &&& after.areas == ram.areas
            &&& after.host == ram.host
            &&& forall|a: int|
                ram.bytes.contains_key(a) && !(queue.table() <= a < queue.table() + 16 * queue.size)
                    ==> #[trigger] after.bytes[a] == ram.bytes[a]
        }),
    decreases left,
{
    if left > 0 && next < queue.size {
        let gpa = queue.table() + next * 16;
        if let Some(raw) = ram.load_span(gpa, 16) {
            let (mid, ok) = readdressed(raw, gpa, ram);
            assert(mid.bytes.dom() =~= ram.bytes.dom());
            assert(mid.areas == ram.areas && mid.host == ram.host);
            assert forall|a: int|
                ram.bytes.contains_key(a) && !(queue.table() <= a < queue.table() + 16
                    * queue.size) implies #[trigger] mid.bytes[a] == ram.bytes[a] by {
                if let Some(hpa) = ram.translation(Descriptor::decoded(raw).addr as int) {
                    readdressing_keeps_the_rest(raw, hpa as u64);
                }
            }
            if ok && Descriptor::decoded(raw).has_next() {
                rewriting_stays_in_table(
                    queue,
                    Descriptor::decoded(raw).next,
                    (left - 1) as nat,
                    mid,
                );
            }
        }
    }
}

} // verus!
