//! What the block device does with a request, with the requests of one notification, and with
//! an access to a register, as functions of its state and of guest memory.

use vstd::prelude::*;

use crate::bus::{AccessWidth, Port};
use crate::error::VmError;
use crate::guest_memory::RamView;
use crate::virtio_blk::disk;
use crate::virtio_blk::queue::{Descriptor, LegacyQueue};
use crate::virtio_blk::request::{RequestCompletion, RequestView};
use crate::virtio_blk::request::{VIRTIO_BLK_T_IN, VIRTIO_BLK_T_OUT};

verus! {

/// How many requests one notification may bring. No driver comes near it; it bounds the work.
pub const MAX_REQUESTS_PER_NOTIFY: u64 = 0xffff_ffff_ffff_ffff;

/// The state of the device.
#[verifier::ext_equal]
pub struct BlkView {
    pub queue: LegacyQueue,
    pub disk: Seq<u8>,
    pub status: u8,
    pub isr_status: u8,
}

impl BlkView {
    /// The queue has a descriptor.
    pub open spec fn wf(self) -> bool {
        self.queue.wf()
    }
}

/// The serial of the device, "AXVISOR-UEFI-BLK" and a null byte.
pub open spec fn serial() -> Seq<u8> {
    seq![
        0x41u8, 0x58, 0x56, 0x49, 0x53, 0x4f, 0x52, 0x2d, 0x55, 0x45, 0x46, 0x49, 0x2d, 0x42, 0x4c,
        0x4b, 0,
    ]
}

/// How a transfer between disk and memory ended.
pub enum Transfer {
    /// Every descriptor was served.
    Done,
    /// A descriptor reaches past the end of the disk.
    OutOfRange,
    /// Memory of a descriptor is not mapped.
    Fault,
}

/// How many bytes the descriptors from index `i` on cover.
pub open spec fn total_len(data: Seq<Descriptor>, i: nat) -> nat
    decreases data.len() - i,
{
    if i >= data.len() {
        0
    } else {
        data[i as int].len as nat + total_len(data, i + 1)
    }
}

/// What the buffers of the descriptors from index `i` on hold, one after the other.
pub open spec fn gathered(data: Seq<Descriptor>, i: nat, ram: RamView) -> Seq<u8>
    decreases data.len() - i,
{
    if i >= data.len() {
        Seq::empty()
    } else {
        ram.at(data[i as int].addr as int, data[i as int].len as nat) + gathered(data, i + 1, ram)
    }
}

/// The address lies in the buffer of a descriptor.
pub open spec fn in_buffer(d: Descriptor, a: int) -> bool {
    d.addr <= a < d.addr + d.len
}

/// No address lies in the buffers of two descriptors.
pub open spec fn disjoint_buffers(data: Seq<Descriptor>) -> bool {
    forall|i: int, j: int, a: int|
        #![trigger in_buffer(data[i], a), in_buffer(data[j], a)]
        0 <= i < j < data.len() && in_buffer(data[i], a) ==> !in_buffer(data[j], a)
}

/// The disk from `offset` on goes to the buffers of the descriptors from index `i` on, one
/// after the other.
pub open spec fn copied_to_guest(
    disk: Seq<u8>,
    data: Seq<Descriptor>,
    i: nat,
    offset: int,
    ram: RamView,
) -> (RamView, Transfer)
    decreases data.len() - i,
{
    if i >= data.len() {
        (ram, Transfer::Done)
    } else if offset + data[i as int].len > disk.len() {
        (ram, Transfer::OutOfRange)
    } else {
        let end = offset + data[i as int].len;
        let (next, ok) = ram.store(data[i as int].addr as int, disk.subrange(offset, end));
        if ok {
            copied_to_guest(disk, data, i + 1, end, next)
        } else {
            (next, Transfer::Fault)
        }
    }
}

/// The buffers of the descriptors from index `i` on go to the disk from `offset` on, one after
/// the other.
pub open spec fn copied_to_disk(
    disk: Seq<u8>,
    data: Seq<Descriptor>,
    i: nat,
    offset: int,
    ram: RamView,
) -> (Seq<u8>, Transfer)
    decreases data.len() - i,
{
    if i >= data.len() {
        (disk, Transfer::Done)
    } else {
        match ram.load(data[i as int].addr as int, data[i as int].len as nat) {
            None => (disk, Transfer::Fault),
            Some(bytes) => if offset + bytes.len() > disk.len() {
                (disk, Transfer::OutOfRange)
            } else {
                copied_to_disk(
                    disk::overwritten(disk, offset, bytes),
                    data,
                    i + 1,
                    offset + bytes.len(),
                    ram,
                )
            },
        }
    }
}

/// The serial from index `written` on goes to the buffers of the descriptors from index `i` on,
/// as far as they reach. With it comes how much of the serial was written in the end.
pub open spec fn serial_to_guest(
    data: Seq<Descriptor>,
    i: nat,
    written: nat,
    ram: RamView,
) -> (RamView, Option<nat>)
    decreases data.len() - i,
{
    if i >= data.len() || written >= serial().len() {
        (ram, Some(written))
    } else {
        let len = data[i as int].len as nat;
        let end = if written + len <= serial().len() {
            written + len
        } else {
            serial().len()
        };
        let (next, ok) = ram.store(
            data[i as int].addr as int,
            serial().subrange(written as int, end as int),
        );
        if ok {
            serial_to_guest(data, i + 1, end, next)
        } else {
            (next, None)
        }
    }
}

/// The disk and the memory after a request, and how the request ended: `None` where it could not
/// be carried out far enough to be answered.
#[verifier::ext_equal]
pub struct Executed {
    pub disk: Seq<u8>,
    pub ram: RamView,
    pub completion: Option<RequestCompletion>,
}

/// What a read reports as written: the data, counted up to what the field holds, and the status
/// byte.
pub open spec fn read_used_len(data: Seq<Descriptor>) -> int {
    if total_len(data, 0) > u32::MAX {
        u32::MAX as int + 1
    } else {
        (total_len(data, 0) + 1) as int
    }
}

/// Reading sectors.
pub open spec fn executed_read(req: RequestView, disk: Seq<u8>, ram: RamView) -> Executed {
    if req.sector * 512 > disk.len() {
        Executed { disk, ram, completion: None }
    } else {
        let (after, end) = copied_to_guest(disk, req.data, 0, req.sector * 512, ram);
        Executed {
            disk,
            ram: after,
            completion: match end {
                Transfer::Done => Some(RequestCompletion::success(read_used_len(req.data))),
                Transfer::OutOfRange => Some(RequestCompletion::failure()),
                Transfer::Fault => None,
            },
        }
    }
}

/// Writing sectors.
pub open spec fn executed_write(req: RequestView, disk: Seq<u8>, ram: RamView) -> Executed {
    if req.sector * 512 > disk.len() {
        Executed { disk, ram, completion: None }
    } else {
        let (after, end) = copied_to_disk(disk, req.data, 0, req.sector * 512, ram);
        Executed {
            disk: after,
            ram,
            completion: match end {
                Transfer::Done => Some(RequestCompletion::success(1)),
                Transfer::OutOfRange => Some(RequestCompletion::failure()),
                Transfer::Fault => None,
            },
        }
    }
}

/// Asking for the serial.
pub open spec fn executed_get_id(req: RequestView, disk: Seq<u8>, ram: RamView) -> Executed {
    let (after, written) = serial_to_guest(req.data, 0, 0, ram);
    Executed {
        disk,
        ram: after,
        completion: match written {
            Some(n) => Some(RequestCompletion::success(n as int)),
            None => None,
        },
    }
}

/// What a request does. A request of a kind that the device does not know, or whose data
/// descriptors do not fit its kind, touches neither disk nor memory.
pub open spec fn executed(req: RequestView, disk: Seq<u8>, ram: RamView) -> Executed {
    if !req.known() {
        Executed { disk, ram, completion: Some(RequestCompletion::unknown()) }
    } else if !req.data_ok() {
        Executed { disk, ram, completion: Some(RequestCompletion::failure()) }
    } else if req.kind == VIRTIO_BLK_T_IN {
        executed_read(req, disk, ram)
    } else if req.kind == VIRTIO_BLK_T_OUT {
        executed_write(req, disk, ram)
    } else {
        executed_get_id(req, disk, ram)
    }
}

/// The length that the request is to report does not fit the used element.
pub open spec fn length_overflows(req: RequestView, disk: Seq<u8>, ram: RamView) -> bool {
    &&& req.kind == VIRTIO_BLK_T_IN
    &&& req.data_ok()
    &&& req.sector * 512 <= disk.len()
    &&& copied_to_guest(disk, req.data, 0, req.sector * 512, ram).1 is Done
    &&& read_used_len(req.data) > u32::MAX
}

/// How one turn of serving the queue ended.
pub enum Turn {
    /// No request waits.
    Idle,
    /// A request was served and its used element published.
    Served,
    /// The queue, the request or its memory is unusable.
    Fault,
}

/// The state after one turn of serving the queue.
#[verifier::ext_equal]
pub struct Step {
    pub queue: LegacyQueue,
    pub disk: Seq<u8>,
    pub ram: RamView,
    pub turn: Turn,
}

/// A request that has been taken from the queue is executed, its status byte written, and its
/// used element published.
pub open spec fn answered(
    queue: LegacyQueue,
    head: u16,
    req: RequestView,
    disk: Seq<u8>,
    ram: RamView,
) -> Step {
    let e = executed(req, disk, ram);
    match e.completion {
        None => Step { queue, disk: e.disk, ram: e.ram, turn: Turn::Fault },
        Some(c) => {
            let (ram1, ok1) = e.ram.store_object(req.status.addr as int, seq![c.status]);
            if !ok1 {
                Step { queue, disk: e.disk, ram: ram1, turn: Turn::Fault }
            } else {
                let (ram2, ok2) = queue.published(head, c.used_len, ram1);
                Step {
                    queue,
                    disk: e.disk,
                    ram: ram2,
                    turn: if ok2 {
                        Turn::Served
                    } else {
                        Turn::Fault
                    },
                }
            }
        },
    }
}

/// The request that waits at the head of the queue: its head, and what it asks for.
pub open spec fn waiting(queue: LegacyQueue, ram: RamView) -> Option<(u16, RequestView)> {
    match queue.available(ram) {
        Some(Some(head)) => match queue.advanced().chain(head, queue.size as nat, ram) {
            Some(descs) => match RequestView::parsed(descs, ram) {
                Some(req) => Some((head, req)),
                None => None,
            },
            None => None,
        },
        _ => None,
    }
}

/// One turn of serving the queue.
pub open spec fn step(queue: LegacyQueue, disk: Seq<u8>, ram: RamView) -> Step {
    match queue.available(ram) {
        None => Step { queue, disk, ram, turn: Turn::Fault },
        Some(None) => Step { queue, disk, ram, turn: Turn::Idle },
        Some(Some(_)) => match waiting(queue, ram) {
            None => Step { queue: queue.advanced(), disk, ram, turn: Turn::Fault },
            Some((head, req)) => answered(queue.advanced(), head, req, disk, ram),
        },
    }
}

/// How serving the queue ended.
pub enum Outcome {
    /// Every waiting request was served.
    Complete,
    /// A request could not be served; the ones before it were.
    Fault,
    /// As many requests were served as one notification may bring.
    Limit,
}

/// The state after the queue has been served.
#[verifier::ext_equal]
pub struct Served {
    pub queue: LegacyQueue,
    pub disk: Seq<u8>,
    pub ram: RamView,
    pub count: nat,
    pub outcome: Outcome,
}

/// Serves the queue until no request waits, a request faults, or `left` more requests have been
/// served; `count` have been served before.
pub open spec fn served(
    queue: LegacyQueue,
    disk: Seq<u8>,
    ram: RamView,
    left: nat,
    count: nat,
) -> Served
    decreases left,
{
    if left == 0 {
        Served { queue, disk, ram, count, outcome: Outcome::Limit }
    } else {
        let s = step(queue, disk, ram);
        match s.turn {
            Turn::Idle => Served { queue, disk, ram, count, outcome: Outcome::Complete },
            Turn::Fault => Served {
                queue: s.queue,
                disk: s.disk,
                ram: s.ram,
                count,
                outcome: Outcome::Fault,
            },
            Turn::Served => served(s.queue, s.disk, s.ram, (left - 1) as nat, count + 1),
        }
    }
}

/// Serving the queue comes to a request whose reported length does not fit the used element.
pub open spec fn serving_overflows(
    queue: LegacyQueue,
    disk: Seq<u8>,
    ram: RamView,
    left: nat,
) -> bool
    decreases left,
{
    if left == 0 {
        false
    } else {
        let s = step(queue, disk, ram);
        ||| waiting(queue, ram) matches Some(w) && length_overflows(w.1, disk, ram)
        ||| s.turn is Served && serving_overflows(s.queue, s.disk, s.ram, (left - 1) as nat)
    }
}

/// The queue, the disk and the memory where serving the queue has come to a request whose reported
/// length does not fit the used element; that request still waits.
pub struct Stopped {
    pub queue: LegacyQueue,
    pub disk: Seq<u8>,
    pub ram: RamView,
}

/// Serves the queue up to the first request whose reported length does not fit the used element.
pub open spec fn served_until_overflow(
    queue: LegacyQueue,
    disk: Seq<u8>,
    ram: RamView,
    left: nat,
) -> Stopped
    decreases left,
{
    if left == 0 || (waiting(queue, ram) matches Some(w) && length_overflows(w.1, disk, ram)) {
        Stopped { queue, disk, ram }
    } else {
        let s = step(queue, disk, ram);
        if s.turn is Served {
            served_until_overflow(s.queue, s.disk, s.ram, (left - 1) as nat)
        } else {
            Stopped { queue, disk, ram }
        }
    }
}

/// The value of the register at `offset`, for an access of the given width.
pub open spec fn register(blk: BlkView, offset: int, width: AccessWidth) -> int {
    if offset == 0x08 && width == AccessWidth::Dword {
        blk.queue.pfn as int
    } else if offset == 0x0c && width == AccessWidth::Word {
        blk.queue.size as int
    } else if offset == 0x14 && width == AccessWidth::Dword {
        (blk.disk.len() as int) / 512 % 0x1_0000_0000
    } else if offset == 0x18 && width == AccessWidth::Dword {
        (blk.disk.len() as int) / 512 / 0x1_0000_0000
    } else if offset == 0x12 && width == AccessWidth::Byte {
        blk.status as int
    } else if offset == 0x13 && width == AccessWidth::Byte {
        blk.isr_status as int
    } else {
        0
    }
}

/// What a write to a register leads to: the device and the memory afterwards, and how many used
/// elements were published.
#[verifier::ext_equal]
pub struct Written {
    pub blk: BlkView,
    pub ram: RamView,
    pub result: Result<nat, VmError>,
}

/// The access is a notification.
pub open spec fn notifies(port: Port, width: AccessWidth) -> bool {
    port.0 == 0x6010 && width == AccessWidth::Word
}

/// A notification serves the queue. The interrupt status is raised only where the queue was
/// served to its end and a used element was published.
pub open spec fn notified(blk: BlkView, ram: RamView) -> Written {
    let s = served(blk.queue, blk.disk, ram, MAX_REQUESTS_PER_NOTIFY as nat, 0);
    let after = BlkView { queue: s.queue, disk: s.disk, ..blk };
    match s.outcome {
        Outcome::Complete => Written {
            blk: BlkView {
                isr_status: if s.count > 0 {
                    blk.isr_status | 1u8
                } else {
                    blk.isr_status
                },
                ..after
            },
            ram: s.ram,
            result: Ok(s.count),
        },
        Outcome::Fault => Written { blk: after, ram: s.ram, result: Err(VmError::InvalidInput) },
        Outcome::Limit => Written { blk: after, ram: s.ram, result: Err(VmError::TimedOut) },
    }
}

/// What a write of `value` to a port leads to. A register takes the part of the value that it
/// has room for; a register that is unknown, or written in another width, ignores the write.
pub open spec fn written(
    blk: BlkView,
    port: Port,
    width: AccessWidth,
    value: usize,
    ram: RamView,
) -> Written {
    if !(0x6000 <= port.0 < 0x6080) {
        Written { blk, ram, result: Err(VmError::InvalidInput) }
    } else if port.0 == 0x600c && width == AccessWidth::Word {
        let size = value as int % 0x1_0000;
        Written {
            blk: BlkView {
                queue: LegacyQueue {
                    size: if size == 0 {
                        1
                    } else {
                        size as u16
                    },
                    ..blk.queue
                },
                ..blk
            },
            ram,
            result: Ok(0),
        }
    } else if port.0 == 0x6008 && width == AccessWidth::Dword {
        let pfn = (value as int % 0x1_0000_0000) as u32;
        Written {
            blk: BlkView {
                queue: LegacyQueue {
                    pfn,
                    last_avail_idx: if pfn == blk.queue.pfn {
                        blk.queue.last_avail_idx
                    } else {
                        0
                    },
                    ..blk.queue
                },
                ..blk
            },
            ram,
            result: Ok(0),
        }
    } else if notifies(port, width) {
        notified(blk, ram)
    } else if port.0 == 0x6012 && width == AccessWidth::Byte {
        Written { blk: BlkView { status: (value as int % 0x100) as u8, ..blk }, ram, result: Ok(0) }
    } else {
        Written { blk, ram, result: Ok(0) }
    }
}

/// The write comes to a request whose reported length does not fit the used element.
pub open spec fn write_overflows(
    blk: BlkView,
    port: Port,
    width: AccessWidth,
    ram: RamView,
) -> bool {
    notifies(port, width) && serving_overflows(
        blk.queue,
        blk.disk,
        ram,
        MAX_REQUESTS_PER_NOTIFY as nat,
    )
}

} // verus!
