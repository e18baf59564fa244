//! The virtqueue of the block device: its descriptor table, its available ring and its used
//! ring, at addresses that follow from the page number that the driver has set.

use vstd::prelude::*;

use crate::bytes;
use crate::error::VmError;
use crate::guest_memory;
use crate::guest_memory::{GuestMemory, RamView};

verus! {

/// The size of the queue before the driver has set one.
pub const DEFAULT_QUEUE_SIZE: u16 = 8;

/// Set in a descriptor that another one follows.
pub const VIRTQ_DESC_F_NEXT: u16 = 1;

/// Set in a descriptor of a buffer that the device may write.
pub const VIRTQ_DESC_F_WRITE: u16 = 2;

/// One entry of the descriptor table.
#[derive(Clone, Copy, Debug, PartialEq, Eq, Structural)]
pub struct Descriptor {
    pub addr: u64,
    pub len: u32,
    pub flags: u16,
    pub next: u16,
}

impl Descriptor {
    /// The device may write the buffer.
    pub open spec fn is_writable(self) -> bool {
        self.flags & VIRTQ_DESC_F_WRITE != 0
    }

    /// Another descriptor follows in the chain.
    pub open spec fn has_next(self) -> bool {
        self.flags & VIRTQ_DESC_F_NEXT != 0
    }

    /// The descriptor that 16 bytes of the table encode.
    pub open spec fn decoded(raw: Seq<u8>) -> Descriptor {
        Descriptor {
            addr: bytes::le_u64_at(raw, 0),
            len: bytes::le_u32_at(raw, 8),
            flags: bytes::le_u16_at(raw, 12),
            next: bytes::le_u16_at(raw, 14),
        }
    }

    /// Whether the device may write the buffer.
    pub fn writable(self) -> (b: bool)
        ensures
            b == self.is_writable(),
    {
        self.flags & VIRTQ_DESC_F_WRITE != 0
    }
}

/// The state of the queue.
#[derive(Clone, Copy, Debug, PartialEq, Eq, Structural)]
pub struct LegacyQueue {
    /// How many descriptors the queue has.
    pub size: u16,
    /// The page at which the queue starts, zero while it is not set up.
    pub pfn: u32,
    /// How many requests have been taken from the available ring, modulo its index range.
    pub last_avail_idx: u16,
}

impl LegacyQueue {
    /// The queue has a descriptor.
    pub open spec fn wf(self) -> bool {
        self.size >= 1
    }

    /// Where the descriptor table starts.
    pub open spec fn table(self) -> int {
        self.pfn * 0x1000
    }

    /// Where the available ring starts, right after the descriptor table.
    pub open spec fn avail_ring(self) -> int {
        self.table() + self.size * 16
    }

    /// Where the used ring starts: at the first page boundary after the available ring.
    pub open spec fn used_ring(self) -> int {
        (self.avail_ring() + 4 + self.size * 2 + 0xfff) / 0x1000 * 0x1000
    }

    /// The descriptor with the given index, if there is one.
    pub open spec fn desc(self, index: u16, ram: RamView) -> Option<Descriptor> {
        if index >= self.size || self.pfn == 0 {
            None
        } else {
            match ram.load(self.table() + index * 16, 16) {
                Some(raw) => Some(Descriptor::decoded(raw)),
                None => None,
            }
        }
    }

    /// The chain of descriptors from `head` on, if it ends within `limit` descriptors.
    pub open spec fn chain(self, head: u16, limit: nat, ram: RamView) -> Option<Seq<Descriptor>>
        decreases limit,
    {
        if limit == 0 {
            None
        } else {
            match self.desc(head, ram) {
                None => None,
                Some(d) => if d.has_next() {
                    match self.chain(d.next, (limit - 1) as nat, ram) {
                        None => None,
                        Some(rest) => Some(seq![d] + rest),
                    }
                } else {
                    Some(seq![d])
                },
            }
        }
    }

    /// The head of the next request in the available ring: `Some(None)` where no request waits,
    /// `None` where the ring cannot be read.
    pub open spec fn available(self, ram: RamView) -> Option<Option<u16>> {
        if self.pfn == 0 {
            None
        } else {
            match ram.load_u16(self.avail_ring() + 2) {
                None => None,
                Some(idx) => if idx == self.last_avail_idx {
                    Some(None)
                } else {
                    match ram.load_u16(self.avail_ring() + 4 + self.last_avail_idx % self.size * 2) {
                        None => None,
                        Some(head) => Some(Some(head)),
                    }
                },
            }
        }
    }

    /// The queue after one more request has been taken from the available ring.
    pub open spec fn advanced(self) -> LegacyQueue {
        LegacyQueue { last_avail_idx: ((self.last_avail_idx + 1) % 0x1_0000) as u16, ..self }
    }

    /// The memory after a used element has been published, and whether that worked. The element
    /// goes to the slot that the used index names, and only then the index moves on.
    pub open spec fn published(self, head: u16, len: u32, ram: RamView) -> (RamView, bool) {
        if self.pfn == 0 {
            (ram, false)
        } else {
            match ram.load_u16(self.used_ring() + 2) {
                None => (ram, false),
                Some(idx) => {
                    let slot = self.used_ring() + idx % self.size * 8;
                    let (ram1, ok1) = ram.store_object(slot + 4, bytes::le_bytes_u32(head as u32));
                    if !ok1 {
                        (ram1, false)
                    } else {
                        let (ram2, ok2) = ram1.store_object(slot + 8, bytes::le_bytes_u32(len));
                        if !ok2 {
                            (ram2, false)
                        } else {
                            ram2.store_object(
                                self.used_ring() + 2,
                                bytes::le_bytes_u16(((idx + 1) % 0x1_0000) as u16),
                            )
                        }
                    }
                },
            }
        }
    }

    /// A queue that is not set up yet.
    pub fn new() -> (q: LegacyQueue)
        ensures
            q == (LegacyQueue { size: DEFAULT_QUEUE_SIZE, pfn: 0, last_avail_idx: 0 }),
    {
        LegacyQueue { size: DEFAULT_QUEUE_SIZE, pfn: 0, last_avail_idx: 0 }
    }

    /// Sets how many descriptors the queue has, at least one.
    pub fn set_size(&mut self, size: u16)
        ensures
            *final(self) == (LegacyQueue {
                size: if size == 0 {
                    1
                } else {
                    size
                },
                ..*old(self)
            }),
    {
        self.size = if size == 0 {
            1
        } else {
            size
        };
    }

    /// Sets the page of the queue. Another page starts the queue afresh.
    pub fn set_pfn(&mut self, pfn: u32)
        ensures
            *final(self) == (LegacyQueue {
                pfn,
                last_avail_idx: if old(self).pfn == pfn {
                    old(self).last_avail_idx
                } else {
                    0
                },
                ..*old(self)
            }),
    {
        if self.pfn != pfn {
            self.last_avail_idx = 0;
        }
        self.pfn = pfn;
    }

    /// Where the queue starts, once its page is set.
    pub fn base(&self) -> (r: Result<u64, VmError>)
        ensures
            self.pfn == 0 ==> r == Err::<u64, VmError>(VmError::InvalidInput),
            self.pfn != 0 ==> r == Ok::<u64, VmError>(self.table() as u64),
            self.table() <= 0xfff_ffff_f000,
    {
        if self.pfn == 0 {
            return Err(VmError::InvalidInput);
        }
        Ok(self.pfn as u64 * 0x1000)
    }

    /// Where the descriptor table starts, once the page of the queue is set.
    pub fn desc_table_gpa(&self) -> (r: Result<u64, VmError>)
        ensures
            self.pfn == 0 ==> r == Err::<u64, VmError>(VmError::InvalidInput),
            self.pfn != 0 ==> r == Ok::<u64, VmError>(self.table() as u64),
            self.table() <= 0xfff_ffff_f000,
    {
        self.base()
    }

    /// Where the available ring starts, once the page of the queue is set.
    pub fn avail_ring_gpa(&self) -> (r: Result<u64, VmError>)
        ensures
            self.pfn == 0 ==> r == Err::<u64, VmError>(VmError::InvalidInput),
            self.pfn != 0 ==> r == Ok::<u64, VmError>(self.avail_ring() as u64),
            self.avail_ring() <= 0x1000_000f_eff0,
    {
        match self.base() {
            Ok(base) => Ok(base + self.size as u64 * 16),
            Err(err) => Err(err),
        }
    }

    /// Where the used ring starts, once the page of the queue is set.
    pub fn used_ring_gpa(&self) -> (r: Result<u64, VmError>)
        ensures
            self.pfn == 0 ==> r == Err::<u64, VmError>(VmError::InvalidInput),
            self.pfn != 0 ==> r == Ok::<u64, VmError>(self.used_ring() as u64),
            self.used_ring() <= 0x1000_0020_0000,
    {
        match self.avail_ring_gpa() {
            Ok(avail) => {
                let avail_end: u64 = avail + 4 + self.size as u64 * 2;
                Ok((avail_end + 0xfff) / 0x1000 * 0x1000)
            },
            Err(err) => Err(err),
        }
    }

    /// Reads a descriptor from the table.
    pub fn read_desc<M: GuestMemory>(&self, index: u16, mem: &M) -> (r: Result<
        Descriptor,
        VmError,
    >)
        ensures
            r == VmError::or_invalid(self.desc(index, mem.ram())),
    {
        if index >= self.size {
            return Err(VmError::InvalidInput);
        }
        let table: u64 = match self.desc_table_gpa() {
            Ok(table) => table,
            Err(err) => return Err(err),
        };
        match mem.read_buffer(table + index as u64 * 16, 16) {
            Ok(raw) => Ok(
                Descriptor {
                    addr: bytes::read_le_u64(raw.as_slice(), 0),
                    len: bytes::read_le_u32(raw.as_slice(), 8),
                    flags: bytes::read_le_u16(raw.as_slice(), 12),
                    next: bytes::read_le_u16(raw.as_slice(), 14),
                },
            ),
            Err(err) => Err(err),
        }
    }

    /// Reads the chain of descriptors that starts at `head`. A chain that has not ended after as
    /// many descriptors as the queue has must loop, and is refused.
    pub fn collect_chain<M: GuestMemory>(&self, head: u16, mem: &M) -> (r: Result<
        Vec<Descriptor>,
        VmError,
    >)
        ensures
            match self.chain(head, self.size as nat, mem.ram()) {
                Some(chain) => r matches Ok(v) && v@ == chain,
                None => r == Err::<Vec<Descriptor>, VmError>(VmError::InvalidInput),
            },
    {
        let mut descs: Vec<Descriptor> = Vec::new();
        let mut index: u16 = head;
        let mut left: u16 = self.size;
        let ghost whole = self.chain(head, self.size as nat, mem.ram());
        assert(whole == match self.chain(index, left as nat, mem.ram()) {
            Some(rest) => Some(descs@ + rest),
            None => None,
        }) by {
            if let Some(c) = whole {
                assert(descs@ + c =~= c);
            }
        }
        while left > 0
            invariant
                whole == self.chain(head, self.size as nat, mem.ram()),
                whole == match self.chain(index, left as nat, mem.ram()) {
                    Some(rest) => Some(descs@ + rest),
                    None => None,
                },
            decreases left,
        {
            let desc = match self.read_desc(index, mem) {
                Ok(desc) => desc,
                Err(err) => return Err(err),
            };
            let ghost before = descs@;
            descs.push(desc);
            if desc.flags & VIRTQ_DESC_F_NEXT == 0 {
                assert(before + seq![desc] =~= descs@);
                return Ok(descs);
            }
            proof {
                if let Some(rest) = self.chain(desc.next, (left - 1) as nat, mem.ram()) {
                    assert(before + (seq![desc] + rest) =~= descs@ + rest);
                }
            }
            index = desc.next;
            left = left - 1;
        }
        Err(VmError::InvalidInput)
    }

    /// Takes the head of the next request from the available ring, if a request waits there.
    pub fn pop_available<M: GuestMemory>(&mut self, mem: &M) -> (r: Result<Option<u16>, VmError>)
        requires
            old(self).wf(),
        ensures
            r == VmError::or_invalid(old(self).available(mem.ram())),
            *final(self) == if r matches Ok(Some(head)) {
                old(self).advanced()
            } else {
                *old(self)
            },
    {
        let avail: u64 = match self.avail_ring_gpa() {
            Ok(avail) => avail,
            Err(err) => return Err(err),
        };
        let avail_idx: u16 = match guest_memory::load_u16(mem, avail + 2) {
            Ok(idx) => idx,
            Err(err) => return Err(err),
        };
        if self.last_avail_idx == avail_idx {
            return Ok(None);
        }
        let slot: u16 = self.last_avail_idx % self.size;
        let head: u16 = match guest_memory::load_u16(mem, avail + 4 + slot as u64 * 2) {
            Ok(head) => head,
            Err(err) => return Err(err),
        };
        self.last_avail_idx = self.last_avail_idx.wrapping_add(1);
        Ok(Some(head))
    }

    /// Puts a used element into the used ring and moves the used index on.
    pub fn publish_used<M: GuestMemory>(&self, head: u16, len: u32, mem: &mut M) -> (r: Result<
        (),
        VmError,
    >)
        requires
            self.wf(),
        ensures
            final(mem).ram() == self.published(head, len, old(mem).ram()).0,
            r == VmError::unless_invalid(self.published(head, len, old(mem).ram()).1),
    {
        let used: u64 = match self.used_ring_gpa() {
            Ok(used) => used,
            Err(err) => return Err(err),
        };
        let idx: u16 = match guest_memory::load_u16(mem, used + 2) {
            Ok(idx) => idx,
            Err(err) => return Err(err),
        };
        let slot: u16 = idx % self.size;
        match guest_memory::store_u32(mem, used + 4 + slot as u64 * 8, head as u32) {
            Ok(()) => {},
            Err(err) => return Err(err),
        }
        match guest_memory::store_u32(mem, used + 8 + slot as u64 * 8, len) {
            Ok(()) => {},
            Err(err) => return Err(err),
        }
        guest_memory::store_u16(mem, used + 2, idx.wrapping_add(1))
    }
}

} // verus!
