//! The block device itself.

use vstd::prelude::*;

use crate::bus::{AccessWidth, Port};
use crate::error::VmError;
use crate::guest_memory::GuestMemory;
use crate::virtio_blk::disk::{MemoryDisk, SECTOR_SIZE};
use crate::virtio_blk::laws;
use crate::virtio_blk::model;
use crate::virtio_blk::model::{BlkView, MAX_REQUESTS_PER_NOTIFY};
use crate::virtio_blk::queue::LegacyQueue;
use crate::virtio_blk::request::{RequestCompletion, VirtioBlkRequest};
use crate::virtio_blk::request::{VIRTIO_BLK_T_GET_ID, VIRTIO_BLK_T_IN, VIRTIO_BLK_T_OUT};

verus! {

/// The first port of the device.
pub const LEGACY_BLK_IO_BASE: u16 = 0x6000;

/// How many ports the device has.
pub const LEGACY_BLK_IO_SIZE: u16 = 0x80;

/// The device features, none of which is offered.
pub const REG_DEVICE_FEATURES: u16 = 0x00;

/// The page of the queue.
pub const REG_QUEUE_PFN: u16 = 0x08;

/// The number of descriptors of the queue.
pub const REG_QUEUE_SIZE: u16 = 0x0c;

/// Written to notify the device of requests.
pub const REG_QUEUE_NOTIFY: u16 = 0x10;

/// The device status.
pub const REG_STATUS: u16 = 0x12;

/// The interrupt status.
pub const REG_ISR_STATUS: u16 = 0x13;

/// The low half of the capacity in sectors.
pub const REG_CAPACITY_LOW: u16 = 0x14;

/// The high half of the capacity in sectors.
pub const REG_CAPACITY_HIGH: u16 = 0x18;

/// Set in the interrupt status when a used element was published.
pub const VIRTIO_ISR_QUEUE: u8 = 1;

/// What a write to the device led to.
#[derive(Clone, Copy, Debug, PartialEq, Eq, Structural)]
pub struct LegacyNotifyResult {
    pub used_any: bool,
    pub published_used_count: u16,
    pub should_raise_irq: bool,
}

impl LegacyNotifyResult {
    /// The result for `count` published used elements; the count stops at what its field holds.
    pub open spec fn for_count(count: nat) -> LegacyNotifyResult {
        LegacyNotifyResult {
            used_any: count > 0,
            published_used_count: if count > u16::MAX {
                u16::MAX
            } else {
                count as u16
            },
            should_raise_irq: count > 0,
        }
    }

    /// Nothing was published.
    pub fn idle() -> (r: LegacyNotifyResult)
        ensures
            r == LegacyNotifyResult::for_count(0),
    {
        LegacyNotifyResult { used_any: false, published_used_count: 0, should_raise_irq: false }
    }

    /// One used element was published.
    pub fn completed_one() -> (r: LegacyNotifyResult)
        ensures
            r == LegacyNotifyResult::for_count(1),
    {
        LegacyNotifyResult { used_any: true, published_used_count: 1, should_raise_irq: true }
    }

    /// Takes another result into this one.
    pub fn merge(&mut self, other: LegacyNotifyResult)
        ensures
            final(self).used_any == (old(self).used_any || other.used_any),
            final(self).should_raise_irq == (old(self).should_raise_irq || other.should_raise_irq),
            final(self).published_used_count == if old(self).published_used_count
                + other.published_used_count > u16::MAX {
                u16::MAX as int
            } else {
                old(self).published_used_count + other.published_used_count
            },
    {
        self.used_any = self.used_any || other.used_any;
        self.published_used_count = self.published_used_count.saturating_add(
            other.published_used_count,
        );
        self.should_raise_irq = self.should_raise_irq || other.should_raise_irq;
    }
}

impl Default for LegacyNotifyResult {
    fn default() -> (r: LegacyNotifyResult)
        ensures
            r == LegacyNotifyResult::for_count(0),
    {
        LegacyNotifyResult::idle()
    }
}

/// A legacy virtio block device.
#[derive(Debug)]
pub struct LegacyVirtioBlk {
    queue: LegacyQueue,
    disk: MemoryDisk,
    status: u8,
    isr_status: u8,
}

impl View for LegacyVirtioBlk {
    type V = BlkView;

    closed spec fn view(&self) -> BlkView {
        BlkView {
            queue: self.queue,
            disk: self.disk@,
            status: self.status,
            isr_status: self.isr_status,
        }
    }
}

/// The serial of the device.
fn serial() -> (s: [u8; 17])
    ensures
        s@ == model::serial(),
{
    let s: [u8; 17] = [
        0x41,
        0x58,
        0x56,
        0x49,
        0x53,
        0x4f,
        0x52,
        0x2d,
        0x55,
        0x45,
        0x46,
        0x49,
        0x2d,
        0x42,
        0x4c,
        0x4b,
        0,
    ];
    assert(s@ =~= model::serial());
    s
}

impl LegacyVirtioBlk {
    /// A port of the device.
    pub open spec fn owns(port: Port) -> bool {
        0x6000 <= port.0 < 0x6080
    }

    /// A device without a disk image, whose queue is not set up.
    pub fn new() -> (blk: LegacyVirtioBlk)
        ensures
            blk@.queue == (LegacyQueue { size: 8, pfn: 0, last_avail_idx: 0 }),
            blk@.disk == Seq::<u8>::empty(),
            blk@.status == 0,
            blk@.isr_status == 0,
    {
        LegacyVirtioBlk {
            queue: LegacyQueue::new(),
            disk: MemoryDisk::new(Vec::new()),
            status: 0,
            isr_status: 0,
        }
    }

    /// Whether a port belongs to the device.
    pub fn owns_port(port: Port) -> (b: bool)
        ensures
            b == LegacyVirtioBlk::owns(port),
    {
        LEGACY_BLK_IO_BASE <= port.number() && port.number() < LEGACY_BLK_IO_BASE
            + LEGACY_BLK_IO_SIZE
    }

    /// Replaces the disk.
    pub fn install_disk_image(&mut self, disk: Vec<u8>)
        ensures
            final(self)@ == (BlkView { disk: disk@, ..old(self)@ }),
    {
        self.disk = MemoryDisk::new(disk);
    }

    /// What the disk holds.
    pub fn disk_image(&self) -> (s: &[u8])
        ensures
            s@ == self@.disk,
    {
        self.disk.as_slice()
    }

    /// How many whole sectors the disk has.
    fn capacity_sectors(&self) -> (n: u64)
        ensures
            n == self@.disk.len() / 512,
    {
        self.disk.capacity_sectors()
    }

    /// Where a sector starts on the disk, if it does not start past the end.
    fn disk_offset(&self, sector: u64) -> (r: Result<usize, VmError>)
        ensures
            r is Ok <==> sector * 512 <= self@.disk.len(),
            r matches Ok(offset) ==> offset == sector * 512,
            r matches Err(err) ==> err == VmError::InvalidInput,
    {
        let len: usize = self.disk.as_slice().len();
        match sector.checked_mul(SECTOR_SIZE as u64) {
            Some(offset) => if offset > len as u64 {
                Err(VmError::InvalidInput)
            } else {
                Ok(offset as usize)
            },
            None => Err(VmError::InvalidInput),
        }
    }

    /// Carries out a read.
    fn execute_read<M: GuestMemory>(&self, request: &VirtioBlkRequest, mem: &mut M) -> (r: Result<
        RequestCompletion,
        VmError,
    >)
        requires
            request.kind == VIRTIO_BLK_T_IN,
            request@.data_ok(),
            !model::length_overflows(request@, self@.disk, old(mem).ram()),
        ensures
            final(mem).ram() == model::executed_read(request@, self@.disk, old(mem).ram()).ram,
            r == VmError::or_invalid(
                model::executed_read(request@, self@.disk, old(mem).ram()).completion,
            ),
    {
        let start: usize = match self.disk_offset(request.sector) {
            Ok(offset) => offset,
            Err(err) => return Err(err),
        };
        let disk: &[u8] = self.disk.as_slice();
        let disk_len: usize = disk.len();
        let mut offset: usize = start;
        let mut used_len: u32 = 0;
        let mut i: usize = 0;
        let ghost whole = model::copied_to_guest(
            disk@,
            request.data@,
            0,
            start as int,
            old(mem).ram(),
        );
        while i < request.data.len()
            invariant
                i <= request.data@.len(),
                disk@ == self@.disk,
                disk_len == disk@.len(),
                offset <= disk_len,
                start == request.sector * 512,
                start <= disk_len,
                whole == model::copied_to_guest(
                    disk@,
                    request.data@,
                    0,
                    start as int,
                    old(mem).ram(),
                ),
                whole == model::copied_to_guest(
                    disk@,
                    request.data@,
                    i as nat,
                    offset as int,
                    mem.ram(),
                ),
                ({
                    let total = model::total_len(request.data@, 0);
                    let rest = model::total_len(request.data@, i as nat);
                    &&& rest <= total
                    &&& used_len == if total - rest > u32::MAX {
                        u32::MAX as int
                    } else {
                        total - rest
                    }
                }),
            decreases request.data@.len() - i,
        {
            let desc = request.data[i];
            let end: usize = match offset.checked_add(desc.len as usize) {
                Some(end) => end,
                None => return Ok(RequestCompletion::ioerr()),
            };
            if end > disk_len {
                return Ok(RequestCompletion::ioerr());
            }
            match mem.write_buffer(desc.addr, vstd::slice::slice_subrange(disk, offset, end)) {
                Ok(()) => {},
                Err(err) => return Err(err),
            }
            offset = end;
            used_len = used_len.saturating_add(desc.len);
            i = i + 1;
        }
        Ok(RequestCompletion::ok(used_len + 1))
    }

    /// Carries out a write.
    fn execute_write<M: GuestMemory>(&mut self, request: &VirtioBlkRequest, mem: &M) -> (r: Result<
        RequestCompletion,
        VmError,
    >)
        ensures
            final(self)@ == (BlkView {
                disk: model::executed_write(request@, old(self)@.disk, mem.ram()).disk,
                ..old(self)@
            }),
            r == VmError::or_invalid(
                model::executed_write(request@, old(self)@.disk, mem.ram()).completion,
            ),
    {
        let start: usize = match self.disk_offset(request.sector) {
            Ok(offset) => offset,
            Err(err) => return Err(err),
        };
        let disk_len: usize = self.disk.as_slice().len();
        let mut offset: usize = start;
        let mut i: usize = 0;
        let ghost whole = model::copied_to_disk(
            self@.disk,
            request.data@,
            0,
            start as int,
            mem.ram(),
        );
        while i < request.data.len()
            invariant
                i <= request.data@.len(),
                start == request.sector * 512,
                start <= old(self)@.disk.len(),
                offset <= disk_len,
                disk_len == self@.disk.len(),
                self.queue == old(self).queue,
                self.status == old(self).status,
                self.isr_status == old(self).isr_status,
                whole == model::copied_to_disk(
                    old(self)@.disk,
                    request.data@,
                    0,
                    start as int,
                    mem.ram(),
                ),
                whole == model::copied_to_disk(
                    self@.disk,
                    request.data@,
                    i as nat,
                    offset as int,
                    mem.ram(),
                ),
            decreases request.data@.len() - i,
        {
            let desc = request.data[i];
            let bytes = match mem.read_buffer(desc.addr, desc.len as usize) {
                Ok(bytes) => bytes,
                Err(err) => return Err(err),
            };
            match self.disk.write_at(offset, bytes.as_slice()) {
                Ok(()) => {},
                Err(_) => return Ok(RequestCompletion::ioerr()),
            }
            offset = offset + desc.len as usize;
            i = i + 1;
        }
        Ok(RequestCompletion::ok(1))
    }

    /// Writes the serial into the buffers of the request.
    fn execute_get_id<M: GuestMemory>(&self, request: &VirtioBlkRequest, mem: &mut M) -> (r: Result<
        RequestCompletion,
        VmError,
    >)
        ensures
            final(mem).ram() == model::executed_get_id(request@, self@.disk, old(mem).ram()).ram,
            r == VmError::or_invalid(
                model::executed_get_id(request@, self@.disk, old(mem).ram()).completion,
            ),
    {
        let serial = serial();
        let mut written: usize = 0;
        let mut i: usize = 0;
        let ghost whole = model::serial_to_guest(request.data@, 0, 0, old(mem).ram());
        while i < request.data.len() && written < 17
            invariant
                i <= request.data@.len(),
                written <= 17,
                serial@ == model::serial(),
                whole == model::serial_to_guest(request.data@, 0, 0, old(mem).ram()),
                whole == model::serial_to_guest(
                    request.data@,
                    i as nat,
                    written as nat,
                    mem.ram(),
                ),
            decreases request.data@.len() - i,
        {
            let desc = request.data[i];
            let remaining: usize = 17 - written;
            let take: usize = if remaining <= desc.len as usize {
                remaining
            } else {
                desc.len as usize
            };
            match mem.write_buffer(
                desc.addr,
                vstd::slice::slice_subrange(serial.as_slice(), written, written + take),
            ) {
                Ok(()) => {},
                Err(err) => return Err(err),
            }
            written = written + take;
            i = i + 1;
        }
        Ok(RequestCompletion::ok(written as u32))
    }

    /// Carries out a request.
    fn execute_request<M: GuestMemory>(
        &mut self,
        request: &VirtioBlkRequest,
        mem: &mut M,
    ) -> (r: Result<RequestCompletion, VmError>)
        requires
            !model::length_overflows(request@, old(self)@.disk, old(mem).ram()),
        ensures
            final(self)@ == (BlkView {
                disk: model::executed(request@, old(self)@.disk, old(mem).ram()).disk,
                ..old(self)@
            }),
            final(mem).ram() == model::executed(request@, old(self)@.disk, old(mem).ram()).ram,
            r == VmError::or_invalid(
                model::executed(request@, old(self)@.disk, old(mem).ram()).completion,
            ),
    {
        if request.kind != VIRTIO_BLK_T_IN && request.kind != VIRTIO_BLK_T_OUT && request.kind
            != VIRTIO_BLK_T_GET_ID {
            return Ok(RequestCompletion::unsupp());
        }
        if request.validate_data_descriptors().is_err() {
            return Ok(RequestCompletion::ioerr());
        }
        if request.kind == VIRTIO_BLK_T_IN {
            self.execute_read(request, mem)
        } else if request.kind == VIRTIO_BLK_T_OUT {
            self.execute_write(request, mem)
        } else {
            self.execute_get_id(request, mem)
        }
    }

    /// Writes the status byte of a request.
    fn write_status<M: GuestMemory>(&self, request: &VirtioBlkRequest, mem: &mut M, status: u8) -> (r:
        Result<(), VmError>)
        ensures
            final(mem).ram() == old(mem).ram().store_object(
                request.status.addr as int,
                seq![status],
            ).0,
            r == VmError::unless_invalid(
                old(mem).ram().store_object(request.status.addr as int, seq![status]).1,
            ),
    {
        let raw: [u8; 1] = [status];
        assert(raw@ =~= seq![status]);
        mem.write_object(request.status.addr, raw.as_slice())
    }

    /// Serves the request that waits at the head of the queue, and says whether there was one.
    fn serve_one<M: GuestMemory>(&mut self, mem: &mut M) -> (r: Result<bool, VmError>)
        requires
            old(self)@.wf(),
            model::waiting(old(self)@.queue, old(mem).ram()) matches Some(w)
                ==> !model::length_overflows(w.1, old(self)@.disk, old(mem).ram()),
        ensures
            ({
                let s = model::step(old(self)@.queue, old(self)@.disk, old(mem).ram());
                &&& final(self)@ == BlkView { queue: s.queue, disk: s.disk, ..old(self)@ }
                &&& final(mem).ram() == s.ram
                &&& r == match s.turn {
                    model::Turn::Idle => Ok::<bool, VmError>(false),
                    model::Turn::Served => Ok(true),
                    model::Turn::Fault => Err(VmError::InvalidInput),
                }
            }),
            final(self)@.wf(),
    {
        let head: u16 = match self.queue.pop_available(mem) {
            Ok(Some(head)) => head,
            Ok(None) => return Ok(false),
            Err(err) => return Err(err),
        };
        let descs = match self.queue.collect_chain(head, mem) {
            Ok(descs) => descs,
            Err(err) => return Err(err),
        };
        let request = match VirtioBlkRequest::from_chain(descs.as_slice(), mem) {
            Ok(request) => request,
            Err(err) => return Err(err),
        };
        let completion = match self.execute_request(&request, mem) {
            Ok(completion) => completion,
            Err(err) => return Err(err),
        };
        match self.write_status(&request, mem, completion.status) {
            Ok(()) => {},
            Err(err) => return Err(err),
        }
        match self.queue.publish_used(head, completion.used_len, mem) {
            Ok(()) => {},
            Err(err) => return Err(err),
        }
        Ok(true)
    }

    /// Serves every waiting request.
    fn process_queue<M: GuestMemory>(&mut self, mem: &mut M) -> (r: Result<
        LegacyNotifyResult,
        VmError,
    >)
        requires
            old(self)@.wf(),
            !model::serving_overflows(
                old(self)@.queue,
                old(self)@.disk,
                old(mem).ram(),
                MAX_REQUESTS_PER_NOTIFY as nat,
            ),
        ensures
            ({
                let s = model::served(
                    old(self)@.queue,
                    old(self)@.disk,
                    old(mem).ram(),
                    MAX_REQUESTS_PER_NOTIFY as nat,
                    0,
                );
                &&& final(self)@ == BlkView { queue: s.queue, disk: s.disk, ..old(self)@ }
                &&& final(mem).ram() == s.ram
                &&& r == match s.outcome {
                    model::Outcome::Complete => Ok::<LegacyNotifyResult, VmError>(
                        LegacyNotifyResult::for_count(s.count),
                    ),
                    model::Outcome::Fault => Err(VmError::InvalidInput),
                    model::Outcome::Limit => Err(VmError::TimedOut),
                }
            }),
            final(self)@.wf(),
    {
        let mut notify = LegacyNotifyResult::idle();
        let mut left: u64 = MAX_REQUESTS_PER_NOTIFY;
        let ghost mut count: nat = 0;
        let ghost whole = model::served(
            self@.queue,
            self@.disk,
            mem.ram(),
            MAX_REQUESTS_PER_NOTIFY as nat,
            0,
        );
        while left > 0
            invariant
                self@.wf(),
                self.status == old(self).status,
                self.isr_status == old(self).isr_status,
                notify == LegacyNotifyResult::for_count(count),
                whole == model::served(
                    old(self)@.queue,
                    old(self)@.disk,
                    old(mem).ram(),
                    MAX_REQUESTS_PER_NOTIFY as nat,
                    0,
                ),
                whole == model::served(self@.queue, self@.disk, mem.ram(), left as nat, count),
                !model::serving_overflows(self@.queue, self@.disk, mem.ram(), left as nat),
            decreases left,
        {
            match self.serve_one(mem) {
                Ok(true) => {},
                Ok(false) => return Ok(notify),
                Err(err) => return Err(err),
            }
            notify.merge(LegacyNotifyResult::completed_one());
            proof {
                count = count + 1;
            }
            left = left - 1;
        }
        Err(VmError::TimedOut)
    }

    /// Whether the length that a request reports does not fit the used element.
    fn overflows<M: GuestMemory>(&self, request: &VirtioBlkRequest, mem: &M) -> (b: bool)
        ensures
            b == model::length_overflows(request@, self@.disk, mem.ram()),
    {
        if request.kind != VIRTIO_BLK_T_IN || request.validate_data_descriptors().is_err() {
            return false;
        }
        let start: usize = match self.disk_offset(request.sector) {
            Ok(offset) => offset,
            Err(_) => return false,
        };
        proof {
            laws::transfer_is_done_iff_it_fits(
                self@.disk,
                request.data@,
                0,
                start as int,
                mem.ram(),
            );
        }
        let disk_len: usize = self.disk.as_slice().len();
        let mut end: usize = start;
        let mut i: usize = 0;
        while i < request.data.len()
            invariant
                i <= request.data@.len(),
                start <= end <= disk_len,
                disk_len == self@.disk.len(),
                start == request.sector * 512,
                model::total_len(request.data@, 0) == (end - start) + model::total_len(
                    request.data@,
                    i as nat,
                ),
                model::copied_to_guest(
                    self@.disk,
                    request.data@,
                    0,
                    start as int,
                    mem.ram(),
                ).1 is Done ==> start + model::total_len(request.data@, 0) <= disk_len,
            decreases request.data@.len() - i,
        {
            let len: usize = request.data[i].len as usize;
            if len > disk_len - end {
                return false;
            }
            end = end + len;
            i = i + 1;
        }
        if end - start < u32::MAX as usize {
            return false;
        }
        let mut j: usize = 0;
        while j < request.data.len()
            invariant
                j <= request.data@.len(),
                start == request.sector * 512,
                forall|k: int|
                    0 <= k < j ==> mem.ram().mapped(
                        (#[trigger] request.data@[k]).addr as int,
                        request.data@[k].len as int,
                    ),
                model::copied_to_guest(
                    self@.disk,
                    request.data@,
                    0,
                    start as int,
                    mem.ram(),
                ).1 is Done ==> forall|k: int|
                    0 <= k < request.data@.len() ==> mem.ram().mapped(
                        (#[trigger] request.data@[k]).addr as int,
                        request.data@[k].len as int,
                    ),
            decreases request.data@.len() - j,
        {
            let desc = request.data[j];
            if mem.read_buffer(desc.addr, desc.len as usize).is_err() {
                assert(!mem.ram().mapped(
                    request.data@[j as int].addr as int,
                    request.data@[j as int].len as int,
                ));
                return false;
            }
            j = j + 1;
        }
        true
    }

    /// Whether the length that the waiting request reports does not fit the used element.
    fn next_overflows<M: GuestMemory>(&self, mem: &M) -> (b: bool)
        requires
            self@.wf(),
        ensures
            b == (model::waiting(self@.queue, mem.ram()) matches Some(w)
                && model::length_overflows(w.1, self@.disk, mem.ram())),
    {
        let mut queue = self.queue;
        let head: u16 = match queue.pop_available(mem) {
            Ok(Some(head)) => head,
            _ => return false,
        };
        let descs = match queue.collect_chain(head, mem) {
            Ok(descs) => descs,
            Err(_) => return false,
        };
        match VirtioBlkRequest::from_chain(descs.as_slice(), mem) {
            Ok(request) => self.overflows(&request, mem),
            Err(_) => false,
        }
    }

    /// Serves every waiting request, up to the first one whose reported length does not fit the
    /// used element: where there is one, the result is `None`, and it still waits.
    fn try_process_queue<M: GuestMemory>(&mut self, mem: &mut M) -> (r: Option<
        Result<LegacyNotifyResult, VmError>,
    >)
        requires
            old(self)@.wf(),
        ensures
            ({
                let queue = old(self)@.queue;
                let disk = old(self)@.disk;
                let ram = old(mem).ram();
                let limit = MAX_REQUESTS_PER_NOTIFY as nat;
                if model::serving_overflows(queue, disk, ram, limit) {
                    let s = model::served_until_overflow(queue, disk, ram, limit);
                    &&& r is None
                    &&& final(self)@ == BlkView { queue: s.queue, disk: s.disk, ..old(self)@ }
                    &&& final(mem).ram() == s.ram
                } else {
                    let s = model::served(queue, disk, ram, limit, 0);
                    &&& final(self)@ == BlkView { queue: s.queue, disk: s.disk, ..old(self)@ }
                    &&& final(mem).ram() == s.ram
                    &&& r == Some(
                        match s.outcome {
                            model::Outcome::Complete => Ok::<LegacyNotifyResult, VmError>(
                                LegacyNotifyResult::for_count(s.count),
                            ),
                            model::Outcome::Fault => Err(VmError::InvalidInput),
                            model::Outcome::Limit => Err(VmError::TimedOut),
                        },
                    )
                }
            }),
            final(self)@.wf(),
    {
        let mut notify = LegacyNotifyResult::idle();
        let mut left: u64 = MAX_REQUESTS_PER_NOTIFY;
        let ghost mut count: nat = 0;
        let ghost limit = MAX_REQUESTS_PER_NOTIFY as nat;
        let ghost whole = model::served(self@.queue, self@.disk, mem.ram(), limit, 0);
        let ghost stop = model::served_until_overflow(self@.queue, self@.disk, mem.ram(), limit);
        let ghost over = model::serving_overflows(self@.queue, self@.disk, mem.ram(), limit);
        while left > 0
            invariant
                self@.wf(),
                self.status == old(self).status,
                self.isr_status == old(self).isr_status,
                notify == LegacyNotifyResult::for_count(count),
                limit == MAX_REQUESTS_PER_NOTIFY as nat,
                whole == model::served(old(self)@.queue, old(self)@.disk, old(mem).ram(), limit, 0),
                stop == model::served_until_overflow(
                    old(self)@.queue,
                    old(self)@.disk,
                    old(mem).ram(),
                    limit,
                ),
                over == model::serving_overflows(
                    old(self)@.queue,
                    old(self)@.disk,
                    old(mem).ram(),
                    limit,
                ),
                whole == model::served(self@.queue, self@.disk, mem.ram(), left as nat, count),
                stop == model::served_until_overflow(
                    self@.queue,
                    self@.disk,
                    mem.ram(),
                    left as nat,
                ),
                over == model::serving_overflows(self@.queue, self@.disk, mem.ram(), left as nat),
            decreases left,
        {
            if self.next_overflows(mem) {
                return None;
            }
            match self.serve_one(mem) {
                Ok(true) => {},
                Ok(false) => return Some(Ok(notify)),
                Err(err) => return Some(Err(err)),
            }
            notify.merge(LegacyNotifyResult::completed_one());
            proof {
                count = count + 1;
            }
            left = left - 1;
        }
        Some(Err(VmError::TimedOut))
    }

    /// Reads a register. Reading the interrupt status clears it.
    pub fn handle_read(&mut self, port: Port, width: AccessWidth) -> (r: Result<usize, VmError>)
        ensures
            r is Ok <==> LegacyVirtioBlk::owns(port),
            r matches Err(err) ==> err == VmError::InvalidInput,
            r matches Ok(value) ==> value == model::register(old(self)@, port.0 - 0x6000, width),
            final(self)@ == (BlkView {
                isr_status: if port.0 == 0x6013 && width == AccessWidth::Byte {
                    0
                } else {
                    old(self)@.isr_status
                },
                ..old(self)@
            }),
    {
        if !Self::owns_port(port) {
            return Err(VmError::InvalidInput);
        }
        let offset: u16 = port.number() - LEGACY_BLK_IO_BASE;
        if offset == REG_DEVICE_FEATURES && width == AccessWidth::Dword {
            Ok(0)
        } else if offset == REG_QUEUE_PFN && width == AccessWidth::Dword {
            Ok(self.queue.pfn as usize)
        } else if offset == REG_QUEUE_SIZE && width == AccessWidth::Word {
            Ok(self.queue.size as usize)
        } else if offset == REG_CAPACITY_LOW && width == AccessWidth::Dword {
            Ok((self.capacity_sectors() % 0x1_0000_0000) as usize)
        } else if offset == REG_CAPACITY_HIGH && width == AccessWidth::Dword {
            Ok((self.capacity_sectors() / 0x1_0000_0000) as usize)
        } else if offset == REG_STATUS && width == AccessWidth::Byte {
            Ok(self.status as usize)
        } else if offset == REG_ISR_STATUS && width == AccessWidth::Byte {
            let value: u8 = self.isr_status;
            self.isr_status = 0;
            Ok(value as usize)
        } else {
            Ok(0)
        }
    }

    /// Writes a register. Writing the notification register serves the queue, and raises the
    /// interrupt status where a used element was published.
    pub fn handle_write<M: GuestMemory>(
        &mut self,
        port: Port,
        width: AccessWidth,
        value: usize,
        mem: &mut M,
    ) -> (r: Result<LegacyNotifyResult, VmError>)
        requires
            old(self)@.wf(),
            old(self)@.disk.len() < u32::MAX || !model::write_overflows(
                old(self)@,
                port,
                width,
                old(mem).ram(),
            ),
        ensures
            ({
                let w = model::written(old(self)@, port, width, value, old(mem).ram());
                &&& final(self)@ == w.blk
                &&& final(mem).ram() == w.ram
                &&& r == match w.result {
                    Ok(count) => Ok::<LegacyNotifyResult, VmError>(
                        LegacyNotifyResult::for_count(count),
                    ),
                    Err(err) => Err(err),
                }
            }),
            final(self)@.wf(),
    {
        proof {
            if self@.disk.len() < u32::MAX {
                laws::small_disk_never_overflows(
                    self@.queue,
                    self@.disk,
                    mem.ram(),
                    MAX_REQUESTS_PER_NOTIFY as nat,
                );
            }
        }
        if !Self::owns_port(port) {
            return Err(VmError::InvalidInput);
        }
        let offset: u16 = port.number() - LEGACY_BLK_IO_BASE;
        let notify = if offset == REG_QUEUE_SIZE && width == AccessWidth::Word {
            self.queue.set_size((value % 0x1_0000) as u16);
            LegacyNotifyResult::idle()
        } else if offset == REG_QUEUE_PFN && width == AccessWidth::Dword {
            self.queue.set_pfn((value as u64 % 0x1_0000_0000) as u32);
            LegacyNotifyResult::idle()
        } else if offset == REG_QUEUE_NOTIFY && width == AccessWidth::Word {
            match self.process_queue(mem) {
                Ok(notify) => notify,
                Err(err) => return Err(err),
            }
        } else if offset == REG_STATUS && width == AccessWidth::Byte {
            self.status = (value % 0x100) as u8;
            LegacyNotifyResult::idle()
        } else {
            LegacyNotifyResult::idle()
        };
        if notify.should_raise_irq {
            self.isr_status = self.isr_status | VIRTIO_ISR_QUEUE;
        }
        Ok(notify)
    }
}

impl LegacyVirtioBlk {
    /// Writes a register, whatever the requests in the queue report: where a notification comes to
    /// a request whose reported length does not fit the used element, the result is `None`, the
    /// requests before it have been served, and it still waits.
    pub fn try_write<M: GuestMemory>(
        &mut self,
        port: Port,
        width: AccessWidth,
        value: usize,
        mem: &mut M,
    ) -> (r: Option<Result<LegacyNotifyResult, VmError>>)
        requires
            old(self)@.wf(),
        ensures
            r is None <==> model::write_overflows(old(self)@, port, width, old(mem).ram()),
            match r {
                Some(result) => {
                    let w = model::written(old(self)@, port, width, value, old(mem).ram());
                    &&& final(self)@ == w.blk
                    &&& final(mem).ram() == w.ram
                    &&& result == match w.result {
                        Ok(count) => Ok::<LegacyNotifyResult, VmError>(
                            LegacyNotifyResult::for_count(count),
                        ),
                        Err(err) => Err(err),
                    }
                },
                None => {
                    let s = model::served_until_overflow(
                        old(self)@.queue,
                        old(self)@.disk,
                        old(mem).ram(),
                        MAX_REQUESTS_PER_NOTIFY as nat,
                    );
                    &&& final(self)@ == BlkView { queue: s.queue, disk: s.disk, ..old(self)@ }
                    &&& final(mem).ram() == s.ram
                },
            },
            final(self)@.wf(),
    {
        let notifies: bool = port.number() == LEGACY_BLK_IO_BASE + REG_QUEUE_NOTIFY && width
            == AccessWidth::Word;
        if !notifies {
            return Some(self.handle_write(port, width, value, mem));
        }
        match self.try_process_queue(mem) {
            None => None,
            Some(Err(err)) => Some(Err(err)),
            Some(Ok(notify)) => {
                if notify.should_raise_irq {
                    self.isr_status = self.isr_status | VIRTIO_ISR_QUEUE;
                }
                Some(Ok(notify))
            },
        }
    }
}

impl Default for LegacyVirtioBlk {
    fn default() -> (blk: LegacyVirtioBlk)
        ensures
            blk@.queue == (LegacyQueue { size: 8, pfn: 0, last_avail_idx: 0 }),
            blk@.disk == Seq::<u8>::empty(),
            blk@.status == 0,
            blk@.isr_status == 0,
    {
        LegacyVirtioBlk::new()
    }
}

} // verus!
