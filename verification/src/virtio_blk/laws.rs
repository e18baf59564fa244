//! What holds of the block device over whole requests and notifications.

use vstd::prelude::*;

use crate::bus::{AccessWidth, Port};
use crate::bytes;
use crate::error::VmError;
use crate::guest_memory;
use crate::guest_memory::RamView;
use crate::virtio_blk::disk;
use crate::virtio_blk::model;
use crate::virtio_blk::model::{BlkView, Turn, MAX_REQUESTS_PER_NOTIFY};
use crate::virtio_blk::queue::{Descriptor, LegacyQueue};
use crate::virtio_blk::request::{RequestCompletion, RequestView};
use crate::virtio_blk::request::{VIRTIO_BLK_T_IN, VIRTIO_BLK_T_OUT};

verus! {

/// A chain that is accepted starts at its head, each of its descriptors but the last names the
/// next one, and it has no more descriptors than the limit: a chain that loops is refused.
pub proof fn accepted_chain_is_linked(queue: LegacyQueue, head: u16, limit: nat, ram: RamView)
    ensures
        queue.chain(head, limit, ram) matches Some(chain) ==> {
            &&& 1 <= chain.len() <= limit
            &&& queue.desc(head, ram) == Some(chain[0])
            &&& !chain.last().has_next()
            &&& forall|i: int|
                #![trigger chain[i]]
                0 <= i < chain.len() - 1 ==> chain[i].has_next() && queue.desc(chain[i].next, ram)
                    == Some(chain[i + 1])
        },
    decreases limit,
{
    if let Some(chain) = queue.chain(head, limit, ram) {
        let d = queue.desc(head, ram).unwrap();
        if d.has_next() {
            accepted_chain_is_linked(queue, d.next, (limit - 1) as nat, ram);
            let rest = queue.chain(d.next, (limit - 1) as nat, ram).unwrap();
            assert forall|i: int|
                #![trigger chain[i]]
                0 <= i < chain.len() - 1 implies chain[i].has_next() && queue.desc(
                chain[i].next,
                ram,
            ) == Some(chain[i + 1]) by {
                if i > 0 {
                    assert(chain[i] == rest[i - 1]);
                    assert(chain[i + 1] == rest[i]);
                }
            }
        }
    }
}

/// A transfer to the guest that is done has stayed within the disk.
pub proof fn done_transfer_fits_disk(
    disk: Seq<u8>,
    data: Seq<Descriptor>,
    i: nat,
    offset: int,
    ram: RamView,
)
    requires
        0 <= offset <= disk.len(),
        model::copied_to_guest(disk, data, i, offset, ram).1 is Done,
    ensures
        offset + model::total_len(data, i) <= disk.len(),
    decreases data.len() - i,
{
    if i < data.len() {
        let end = offset + data[i as int].len;
        let next = ram.store(data[i as int].addr as int, disk.subrange(offset, end)).0;
        done_transfer_fits_disk(disk, data, i + 1, end, next);
    }
}

/// A transfer to the guest is done exactly where it stays within the disk and every buffer is
/// mapped.
pub proof fn transfer_is_done_iff_it_fits(
    disk: Seq<u8>,
    data: Seq<Descriptor>,
    i: nat,
    offset: int,
    ram: RamView,
)
    requires
        0 <= offset <= disk.len(),
    ensures
        model::copied_to_guest(disk, data, i, offset, ram).1 is Done <==> offset
            + model::total_len(data, i) <= disk.len() && forall|j: int|
            i <= j < data.len() ==> ram.mapped(
                (#[trigger] data[j]).addr as int,
                data[j].len as int,
            ),
    decreases data.len() - i,
{
    if i < data.len() && offset + data[i as int].len <= disk.len() {
        let d = data[i as int];
        let end = offset + d.len;
        let chunk = disk.subrange(offset, end);
        let (next, ok) = ram.store(d.addr as int, chunk);
        guest_memory::load_after_store(ram, d.addr as int, chunk);
        transfer_is_done_iff_it_fits(disk, data, i + 1, end, next);
        assert forall|j: int| i + 1 <= j < data.len() implies next.mapped(
            (#[trigger] data[j]).addr as int,
            data[j].len as int,
        ) == ram.mapped(data[j].addr as int, data[j].len as int) by {
            let at = data[j].addr as int;
            let len = data[j].len as int;
            if ram.mapped(at, len) {
                assert forall|a: int| at <= a < at + len implies #[trigger] next.bytes.contains_key(
                    a,
                ) by {
                    assert(ram.bytes.contains_key(a));
                }
            }
            if next.mapped(at, len) {
                assert forall|a: int| at <= a < at + len implies #[trigger] ram.bytes.contains_key(
                    a,
                ) by {
                    assert(next.bytes.contains_key(a));
                }
            }
        }
    }
}

/// A transfer to the disk does not change the size of the disk.
pub proof fn transfer_keeps_disk_size(
    disk: Seq<u8>,
    data: Seq<Descriptor>,
    i: nat,
    offset: int,
    ram: RamView,
)
    requires
        0 <= offset,
    ensures
        model::copied_to_disk(disk, data, i, offset, ram).0.len() == disk.len(),
    decreases data.len() - i,
{
    if i < data.len() {
        if let Some(bytes) = ram.load(data[i as int].addr as int, data[i as int].len as nat) {
            if offset + bytes.len() <= disk.len() {
                disk::read_back_after_write(disk, offset, bytes);
                transfer_keeps_disk_size(
                    disk::overwritten(disk, offset, bytes),
                    data,
                    i + 1,
                    offset + bytes.len(),
                    ram,
                );
            }
        }
    }
}

/// One turn of serving the queue keeps the size of the disk.
pub proof fn step_keeps_disk_size(queue: LegacyQueue, disk: Seq<u8>, ram: RamView)
    ensures
        model::step(queue, disk, ram).disk.len() == disk.len(),
{
    if let Some((head, req)) = model::waiting(queue, ram) {
        if req.sector * 512 <= disk.len() {
            transfer_keeps_disk_size(disk, req.data, 0, req.sector * 512, ram);
        }
    }
}

/// On a disk below 4 GiB, no request reports a length that does not fit the used element.
pub proof fn small_disk_never_overflows(
    queue: LegacyQueue,
    disk: Seq<u8>,
    ram: RamView,
    left: nat,
)
    requires
        disk.len() < u32::MAX,
    ensures
        !model::serving_overflows(queue, disk, ram, left),
    decreases left,
{
    if left > 0 {
        if let Some((head, req)) = model::waiting(queue, ram) {
            if model::length_overflows(req, disk, ram) {
                done_transfer_fits_disk(disk, req.data, 0, req.sector * 512, ram);
            }
        }
        let s = model::step(queue, disk, ram);
        step_keeps_disk_size(queue, disk, ram);
        small_disk_never_overflows(s.queue, s.disk, s.ram, (left - 1) as nat);
    }
}

/// The buffers together are as long as their descriptors say.
pub proof fn gathered_len(data: Seq<Descriptor>, i: nat, ram: RamView)
    ensures
        model::gathered(data, i, ram).len() == model::total_len(data, i),
    decreases data.len() - i,
{
    if i < data.len() {
        gathered_len(data, i + 1, ram);
    }
}

/// A write that is done has put the buffers, one after the other, onto the disk at its sector,
/// and has changed nothing else of the disk.
pub proof fn write_stores_buffers(
    disk: Seq<u8>,
    data: Seq<Descriptor>,
    i: nat,
    offset: int,
    ram: RamView,
)
    requires
        0 <= offset <= disk.len(),
        model::copied_to_disk(disk, data, i, offset, ram).1 is Done,
    ensures
        offset + model::gathered(data, i, ram).len() <= disk.len(),
        model::copied_to_disk(disk, data, i, offset, ram).0 == disk::overwritten(
            disk,
            offset,
            model::gathered(data, i, ram),
        ),
    decreases data.len() - i,
{
    if i >= data.len() {
        assert(disk::overwritten(disk, offset, Seq::empty()) =~= disk);
    } else {
        let d = data[i as int];
        let bytes = ram.load(d.addr as int, d.len as nat).unwrap();
        let next = disk::overwritten(disk, offset, bytes);
        let rest = model::gathered(data, i + 1, ram);
        disk::read_back_after_write(disk, offset, bytes);
        write_stores_buffers(next, data, i + 1, offset + bytes.len(), ram);
        assert(disk::overwritten(next, offset + bytes.len(), rest) =~= disk::overwritten(
            disk,
            offset,
            bytes + rest,
        ));
    }
}

/// A transfer to the guest writes nothing outside the buffers, and maps and unmaps nothing.
pub proof fn transfer_stays_in_buffers(
    disk: Seq<u8>,
    data: Seq<Descriptor>,
    i: nat,
    offset: int,
    ram: RamView,
)
    requires
        0 <= offset <= disk.len(),
    ensures
        ({
            let after = model::copied_to_guest(disk, data, i, offset, ram).0;
            &&& after.bytes.dom() == ram.bytes.dom()
            &&& after.areas == ram.areas
            &&& after.host == ram.host
            &&& forall|a: int|
                ram.bytes.contains_key(a) && (forall|j: int|
                    i <= j < data.len() ==> !#[trigger] model::in_buffer(data[j], a))
                    ==> #[trigger] after.bytes[a] == ram.bytes[a]
        }),
    decreases data.len() - i,
{
    if i < data.len() && offset + data[i as int].len <= disk.len() {
        let d = data[i as int];
        let end = offset + d.len;
        let chunk = disk.subrange(offset, end);
        let (next, ok) = ram.store(d.addr as int, chunk);
        guest_memory::load_after_store(ram, d.addr as int, chunk);
        let after = model::copied_to_guest(disk, data, i, offset, ram).0;
        if ok {
            transfer_stays_in_buffers(disk, data, i + 1, end, next);
        }
        assert forall|a: int|
            ram.bytes.contains_key(a) && (forall|j: int|
                i <= j < data.len() ==> !#[trigger] model::in_buffer(data[j], a)) implies
            #[trigger] after.bytes[a] == ram.bytes[a] by {
            assert(!model::in_buffer(data[i as int], a));
            assert(next.bytes.contains_key(a));
            assert(next.bytes[a] == ram.bytes[a]);
        }
    }
}

/// A read that is done has put the disk from its sector on into the buffers, one after the
/// other, where the buffers do not overlap.
pub proof fn read_fills_buffers(
    disk: Seq<u8>,
    data: Seq<Descriptor>,
    i: nat,
    offset: int,
    ram: RamView,
)
    requires
        0 <= offset <= disk.len(),
        model::disjoint_buffers(data),
        model::copied_to_guest(disk, data, i, offset, ram).1 is Done,
    ensures
        offset + model::total_len(data, i) <= disk.len(),
        model::gathered(data, i, model::copied_to_guest(disk, data, i, offset, ram).0)
            == disk.subrange(offset, offset + model::total_len(data, i)),
    decreases data.len() - i,
{
    let after = model::copied_to_guest(disk, data, i, offset, ram).0;
    done_transfer_fits_disk(disk, data, i, offset, ram);
    if i < data.len() {
        let d = data[i as int];
        let end = offset + d.len;
        let chunk = disk.subrange(offset, end);
        let (next, ok) = ram.store(d.addr as int, chunk);
        guest_memory::load_after_store(ram, d.addr as int, chunk);
        transfer_stays_in_buffers(disk, data, i + 1, end, next);
        read_fills_buffers(disk, data, i + 1, end, next);
        assert(after.at(d.addr as int, d.len as nat) =~= chunk) by {
            assert forall|k: int| 0 <= k < d.len implies #[trigger] after.bytes[d.addr + k]
                == chunk[k] by {
                let a = d.addr + k;
                assert(model::in_buffer(data[i as int], a));
                assert forall|j: int| i + 1 <= j < data.len() implies !#[trigger] model::in_buffer(
                    data[j],
                    a,
                ) by {}
                assert(next.at(d.addr as int, d.len as nat)[k] == chunk[k]);
                assert(next.bytes.contains_key(a));
            }
        }
        assert(disk.subrange(offset, offset + model::total_len(data, i)) =~= chunk + disk.subrange(
            end,
            end + model::total_len(data, i + 1),
        ));
    } else {
        assert(model::gathered(data, i, after) =~= disk.subrange(offset, offset));
    }
}

/// A read gives back what a write has put there: where a write of some sector is done, and a read
/// of the same sector and of the same length is done afterwards, the buffers of the read hold
/// what the buffers of the write held, however either of them was split into descriptors, where
/// the buffers of the read do not overlap.
pub proof fn read_returns_what_was_written(
    write: RequestView,
    read: RequestView,
    disk: Seq<u8>,
    ram_at_write: RamView,
    ram_at_read: RamView,
)
    requires
        write.kind == VIRTIO_BLK_T_OUT,
        write.data_ok(),
        read.kind == VIRTIO_BLK_T_IN,
        read.data_ok(),
        read.sector == write.sector,
        model::total_len(read.data, 0) == model::total_len(write.data, 0),
        model::disjoint_buffers(read.data),
        model::executed(write, disk, ram_at_write).completion == Some(
            RequestCompletion::success(1),
        ),
        model::executed(
            read,
            model::executed(write, disk, ram_at_write).disk,
            ram_at_read,
        ).completion matches Some(c) && c.status == 0,
    ensures
        model::gathered(
            read.data,
            0,
            model::executed(
                read,
                model::executed(write, disk, ram_at_write).disk,
                ram_at_read,
            ).ram,
        ) == model::gathered(write.data, 0, ram_at_write),
{
    let offset = write.sector * 512;
    let sent = model::gathered(write.data, 0, ram_at_write);
    let stored = model::copied_to_disk(disk, write.data, 0, offset, ram_at_write).0;
    write_stores_buffers(disk, write.data, 0, offset, ram_at_write);
    disk::read_back_after_write(disk, offset, sent);
    gathered_len(write.data, 0, ram_at_write);
    read_fills_buffers(stored, read.data, 0, offset, ram_at_read);
}

/// A request that is answered with an error because of its kind or of its data descriptors has
/// touched neither the disk nor guest memory.
pub proof fn refused_request_touches_nothing(req: RequestView, disk: Seq<u8>, ram: RamView)
    requires
        !req.known() || !req.data_ok(),
    ensures
        model::executed(req, disk, ram).disk == disk,
        model::executed(req, disk, ram).ram == ram,
        model::executed(req, disk, ram).completion == Some(
            if req.known() {
                RequestCompletion::failure()
            } else {
                RequestCompletion::unknown()
            },
        ),
{
}

/// One turn of serving the queue moves its position on by one where it takes a request, and
/// changes nothing where none waits.
pub proof fn step_moves_by_one(queue: LegacyQueue, disk: Seq<u8>, ram: RamView)
    ensures
        ({
            let s = model::step(queue, disk, ram);
            &&& s.queue.size == queue.size
            &&& s.queue.pfn == queue.pfn
            &&& s.turn is Served ==> s.queue == queue.advanced()
            &&& s.turn is Idle ==> queue.available(ram) == Some(None::<u16>)
            &&& s.turn is Idle ==> s.queue == queue && s.disk == disk && s.ram == ram
        }),
{
}

/// One step and then `n` more, each on a 16-bit counter, are `n + 1` steps.
pub(crate) proof fn wrapped_steps_add(start: int, n: int)
    requires
        0 <= start < 0x1_0000,
    ensures
        ((start + 1) % 0x1_0000 + n) % 0x1_0000 == (start + (n + 1)) % 0x1_0000,
{
}

/// What serving the queue keeps and achieves: the size of the disk and the layout of the queue
/// stay, the position in the available ring moves on by one for each request, and where every
/// request was served, no request waits any more.
pub proof fn serving_makes_progress(
    queue: LegacyQueue,
    disk: Seq<u8>,
    ram: RamView,
    left: nat,
    count: nat,
)
    ensures
        ({
            let s = model::served(queue, disk, ram, left, count);
            &&& s.disk.len() == disk.len()
            &&& s.queue.size == queue.size
            &&& s.queue.pfn == queue.pfn
            &&& count <= s.count <= count + left
            &&& s.outcome is Complete ==> s.queue.available(s.ram) == Some(None::<u16>)
            &&& s.outcome is Complete ==> s.queue.last_avail_idx == (queue.last_avail_idx + (s.count
                - count)) % 0x1_0000
        }),
    decreases left,
{
    if left > 0 {
        let s = model::step(queue, disk, ram);
        step_keeps_disk_size(queue, disk, ram);
        step_moves_by_one(queue, disk, ram);
        let whole = model::served(queue, disk, ram, left, count);
        match s.turn {
            Turn::Served => {
                let rest = model::served(s.queue, s.disk, s.ram, (left - 1) as nat, count + 1);
                assert(whole == rest);
                serving_makes_progress(s.queue, s.disk, s.ram, (left - 1) as nat, count + 1);
                assert(rest.queue.size == queue.size);
                if rest.outcome is Complete {
                    wrapped_steps_add(queue.last_avail_idx as int, rest.count - (count + 1));
                }
            },
            Turn::Idle => {},
            Turn::Fault => {},
        }
    }
}

/// A published used element can be read back from its slot of the used ring, and the used index
/// has moved on by one.
pub proof fn published_element_reads_back(queue: LegacyQueue, head: u16, len: u32, ram: RamView)
    requires
        queue.wf(),
        ram.coherent(),
        queue.published(head, len, ram).1,
    ensures
        ({
            let after = queue.published(head, len, ram).0;
            let idx = ram.load_u16(queue.used_ring() + 2).unwrap();
            let slot = queue.used_ring() + idx % queue.size * 8;
            &&& ram.load_u16(queue.used_ring() + 2) is Some
            &&& after.load_u16(queue.used_ring() + 2) == Some(((idx + 1) % 0x1_0000) as u16)
            &&& bytes::le_u32_at(after.at(slot + 4, 4), 0) == head
            &&& bytes::le_u32_at(after.at(slot + 8, 4), 0) == len
            &&& after.coherent()
        }),
{
    let idx = ram.load_u16(queue.used_ring() + 2).unwrap();
    let next = ((idx + 1) % 0x1_0000) as u16;
    let slot = queue.used_ring() + idx % queue.size * 8;
    let first = bytes::le_bytes_u32(head as u32);
    let second = bytes::le_bytes_u32(len);
    let third = bytes::le_bytes_u16(next);
    let ram1 = ram.store_object(slot + 4, first).0;
    let ram2 = ram1.store_object(slot + 8, second).0;
    let after = ram2.store_object(queue.used_ring() + 2, third).0;
    assert(after == queue.published(head, len, ram).0);
    guest_memory::load_after_store_object(ram, slot + 4, first);
    guest_memory::load_after_store_object(ram1, slot + 8, second);
    guest_memory::load_after_store_object(ram2, queue.used_ring() + 2, third);
    assert(ram1.mapped(slot + 4, 4)) by {
        assert(ram1.bytes.contains_key(slot + 4));
    }
    assert(ram2.mapped(slot + 4, 4)) by {
        assert(ram2.bytes.contains_key(slot + 4));
    }
    assert(ram2.mapped(slot + 8, 4)) by {
        assert(ram2.bytes.contains_key(slot + 8));
    }
    assert(ram1.at(slot + 4, 4) == first);
    assert(ram2.at(slot + 4, 4) == first);
    assert(after.at(slot + 4, 4) == first);
    assert(after.at(slot + 8, 4) == second);
    assert(first.subrange(0, 4) =~= first);
    assert(second.subrange(0, 4) =~= second);
    assert(third.subrange(0, 2) =~= third);
    bytes::le_round_trip_u32(first, 0, head as u32);
    bytes::le_round_trip_u32(second, 0, len);
    bytes::le_round_trip_u16(third, 0, next);
}

/// The registers that a driver sets read back what was written, as far as they have room for it,
/// and a write to one of them leaves the disk, the memory and the interrupt status alone. A queue
/// size of zero is taken as one.
pub proof fn registers_read_back(blk: BlkView, value: usize, ram: RamView)
    ensures
        ({
            let w = model::written(blk, Port(0x600c), AccessWidth::Word, value, ram);
            let size = value as int % 0x1_0000;
            &&& w.result == Ok::<nat, VmError>(0)
            &&& w.ram == ram && w.blk.disk == blk.disk && w.blk.isr_status == blk.isr_status
            &&& model::register(w.blk, 0x0c, AccessWidth::Word) == if size == 0 {
                1
            } else {
                size
            }
        }),
        ({
            let w = model::written(blk, Port(0x6008), AccessWidth::Dword, value, ram);
            &&& w.result == Ok::<nat, VmError>(0)
            &&& w.ram == ram && w.blk.disk == blk.disk && w.blk.isr_status == blk.isr_status
            &&& model::register(w.blk, 0x08, AccessWidth::Dword) == value as int % 0x1_0000_0000
        }),
        ({
            let w = model::written(blk, Port(0x6012), AccessWidth::Byte, value, ram);
            &&& w.result == Ok::<nat, VmError>(0)
            &&& w.ram == ram && w.blk.disk == blk.disk && w.blk.isr_status == blk.isr_status
            &&& model::register(w.blk, 0x12, AccessWidth::Byte) == value as int % 0x100
        }),
{
}

/// The capacity that the device reports is that of the installed disk, and no access to the
/// device changes it.
pub proof fn capacity_is_stable(
    blk: BlkView,
    port: Port,
    width: AccessWidth,
    value: usize,
    ram: RamView,
)
    ensures
        model::register(blk, 0x14, AccessWidth::Dword) + 0x1_0000_0000 * model::register(
            blk,
            0x18,
            AccessWidth::Dword,
        ) == blk.disk.len() as int / 512,
        model::written(blk, port, width, value, ram).blk.disk.len() == blk.disk.len(),
{
    serving_makes_progress(blk.queue, blk.disk, ram, MAX_REQUESTS_PER_NOTIFY as nat, 0);
}

/// A notification that finds no request publishes nothing, asks for no interrupt and changes
/// nothing. One that served requests has raised the interrupt status, and one that failed has
/// not.
pub proof fn interrupt_follows_publication(blk: BlkView, ram: RamView)
    ensures
        blk.queue.available(ram) == Some(None::<u16>) ==> model::notified(blk, ram)
            == (model::Written { blk, ram, result: Ok(0) }),
        model::notified(blk, ram).result matches Ok(n) && n > 0
            ==> model::notified(blk, ram).blk.isr_status & 1 == 1,
        model::notified(blk, ram).result is Err ==> model::notified(blk, ram).blk.isr_status
            == blk.isr_status,
{
    let isr = blk.isr_status;
    assert((isr | 1) & 1 == 1u8) by (bit_vector);
}

/// The buffers hold the same where the bytes in them are the same.
proof fn same_bytes_gather_the_same(
    data: Seq<Descriptor>,
    i: nat,
    before: RamView,
    after: RamView,
)
    requires
        forall|j: int, a: int|
            0 <= j < data.len() && #[trigger] model::in_buffer(data[j], a) ==> after.bytes[a]
                == before.bytes[a],
    ensures
        model::gathered(data, i, after) == model::gathered(data, i, before),
    decreases data.len() - i,
{
    if i < data.len() {
        same_bytes_gather_the_same(data, i + 1, before, after);
        let d = data[i as int];
        assert(after.at(d.addr as int, d.len as nat) =~= before.at(d.addr as int, d.len as nat))
            by {
            assert forall|k: int| 0 <= k < d.len implies after.at(d.addr as int, d.len as nat)[k]
                == before.at(d.addr as int, d.len as nat)[k] by {
                assert(model::in_buffer(data[i as int], d.addr + k));
            }
        }
    }
}

/// The address lies outside the range of `len` addresses from `start` on.
pub open spec fn outside(a: int, start: int, len: int) -> bool {
    !(start <= a < start + len)
}

/// The device answers a request on memory that is not part of its buffers: neither the status
/// byte nor the used ring overlaps them.
pub open spec fn answers_elsewhere(queue: LegacyQueue, req: RequestView) -> bool {
    forall|j: int, a: int|
        0 <= j < req.data.len() && #[trigger] model::in_buffer(req.data[j], a) ==> {
            &&& outside(a, req.status.addr as int, 1)
            &&& outside(a, queue.used_ring(), 4 + 8 * queue.size)
        }
}

/// Publishing a used element writes the used ring and nothing else.
pub(crate) proof fn publishing_stays_in_used_ring(
    queue: LegacyQueue,
    head: u16,
    len: u32,
    ram: RamView,
    a: int,
)
    requires
        queue.wf(),
        outside(a, queue.used_ring(), 4 + 8 * queue.size),
        ram.bytes.contains_key(a),
    ensures
        queue.published(head, len, ram).0.bytes.contains_key(a),
        queue.published(head, len, ram).0.bytes[a] == ram.bytes[a],
{
    if let Some(idx) = ram.load_u16(queue.used_ring() + 2) {
        assert(0 <= idx % queue.size < queue.size);
    }
}

/// Where a request that reads was answered with success, its buffers hold the disk from its
/// sector on, once the answer has been written as well.
pub proof fn answered_read_fills_buffers(
    queue: LegacyQueue,
    head: u16,
    req: RequestView,
    disk: Seq<u8>,
    ram: RamView,
)
    requires
        queue.wf(),
        req.kind == VIRTIO_BLK_T_IN,
        req.data_ok(),
        model::disjoint_buffers(req.data),
        answers_elsewhere(queue, req),
        model::executed(req, disk, ram).completion matches Some(c) && c.status == 0,
        model::answered(queue, head, req, disk, ram).turn is Served,
    ensures
        req.sector * 512 + model::total_len(req.data, 0) <= disk.len(),
        model::gathered(req.data, 0, model::answered(queue, head, req, disk, ram).ram)
            == disk.subrange(
            req.sector * 512,
            req.sector * 512 + model::total_len(req.data, 0),
        ),
{
    let offset = req.sector * 512;
    read_fills_buffers(disk, req.data, 0, offset, ram);
    let e = model::executed(req, disk, ram);
    let c = e.completion.unwrap();
    let mid = e.ram.store_object(req.status.addr as int, seq![c.status]).0;
    let after = model::answered(queue, head, req, disk, ram).ram;
    assert(after == queue.published(head, c.used_len, mid).0);
    done_buffers_are_mapped(disk, req.data, 0, offset, ram);
    assert forall|j: int, a: int|
        0 <= j < req.data.len() && #[trigger] model::in_buffer(req.data[j], a) implies after.bytes[a]
        == e.ram.bytes[a] by {
        assert(e.ram.bytes.contains_key(a));
        assert(mid.bytes.contains_key(a));
        assert(mid.bytes[a] == e.ram.bytes[a]);
        publishing_stays_in_used_ring(queue, head, c.used_len, mid, a);
    }
    same_bytes_gather_the_same(req.data, 0, e.ram, after);
}

/// The buffers of a transfer that is done are mapped, before it and after it.
proof fn done_buffers_are_mapped(
    disk: Seq<u8>,
    data: Seq<Descriptor>,
    i: nat,
    offset: int,
    ram: RamView,
)
    requires
        0 <= offset <= disk.len(),
        model::copied_to_guest(disk, data, i, offset, ram).1 is Done,
    ensures
        forall|j: int, a: int|
            i <= j < data.len() && #[trigger] model::in_buffer(data[j], a)
                ==> model::copied_to_guest(disk, data, i, offset, ram).0.bytes.contains_key(a),
    decreases data.len() - i,
{
    if i < data.len() {
        let d = data[i as int];
        let end = offset + d.len;
        let chunk = disk.subrange(offset, end);
        let next = ram.store(d.addr as int, chunk).0;
        guest_memory::load_after_store(ram, d.addr as int, chunk);
        done_buffers_are_mapped(disk, data, i + 1, end, next);
        transfer_stays_in_buffers(disk, data, i + 1, end, next);
        let after = model::copied_to_guest(disk, data, i, offset, ram).0;
        assert forall|j: int, a: int|
            i <= j < data.len() && #[trigger] model::in_buffer(data[j], a) implies
            after.bytes.contains_key(a) by {
            if j == i {
                assert(next.bytes.contains_key(a));
            }
        }
    }
}

/// What goes through the queue comes back through the queue: where one turn of serving the queue
/// carries out a write of some sector, and a later turn a read of the same sector and of the same
/// length from the disk that the write has left, the buffers of the read hold what the buffers of
/// the write held, where the buffers of the read overlap neither each other nor the memory that
/// the device answers on.
pub proof fn queue_returns_what_was_written(
    queue_at_write: LegacyQueue,
    queue_at_read: LegacyQueue,
    disk: Seq<u8>,
    ram_at_write: RamView,
    ram_at_read: RamView,
)
    requires
        queue_at_read.wf(),
        model::waiting(queue_at_write, ram_at_write) is Some,
        model::waiting(queue_at_read, ram_at_read) is Some,
        ({
            let write = model::waiting(queue_at_write, ram_at_write).unwrap().1;
            let read = model::waiting(queue_at_read, ram_at_read).unwrap().1;
            let left = model::step(queue_at_write, disk, ram_at_write).disk;
            &&& write.kind == VIRTIO_BLK_T_OUT && write.data_ok()
            &&& read.kind == VIRTIO_BLK_T_IN && read.data_ok()
            &&& read.sector == write.sector
            &&& model::total_len(read.data, 0) == model::total_len(write.data, 0)
            &&& model::disjoint_buffers(read.data)
            &&& answers_elsewhere(queue_at_read, read)
            &&& model::executed(write, disk, ram_at_write).completion == Some(
                RequestCompletion::success(1),
            )
            &&& model::executed(read, left, ram_at_read).completion matches Some(c) && c.status == 0
            &&& model::step(queue_at_read, left, ram_at_read).turn is Served
        }),
    ensures
        ({
            let write = model::waiting(queue_at_write, ram_at_write).unwrap().1;
            let read = model::waiting(queue_at_read, ram_at_read).unwrap().1;
            let left = model::step(queue_at_write, disk, ram_at_write).disk;
            model::gathered(read.data, 0, model::step(queue_at_read, left, ram_at_read).ram)
                == model::gathered(write.data, 0, ram_at_write)
        }),
{
    let (_, write) = model::waiting(queue_at_write, ram_at_write).unwrap();
    let (head, read) = model::waiting(queue_at_read, ram_at_read).unwrap();
    let left = model::step(queue_at_write, disk, ram_at_write).disk;
    let offset = write.sector * 512;
    let sent = model::gathered(write.data, 0, ram_at_write);
    assert(left == model::executed(write, disk, ram_at_write).disk);
    write_stores_buffers(disk, write.data, 0, offset, ram_at_write);
    disk::read_back_after_write(disk, offset, sent);
    gathered_len(write.data, 0, ram_at_write);
    answered_read_fills_buffers(queue_at_read.advanced(), head, read, left, ram_at_read);
}

/// The status byte of a request that was answered says how it ended, where the used ring does not
/// overlap it.
pub proof fn status_byte_tells_the_end(
    queue: LegacyQueue,
    head: u16,
    req: RequestView,
    disk: Seq<u8>,
    ram: RamView,
)
    requires
        queue.wf(),
        outside(req.status.addr as int, queue.used_ring(), 4 + 8 * queue.size),
        model::answered(queue, head, req, disk, ram).turn is Served,
    ensures
        model::executed(req, disk, ram).completion is Some,
        model::answered(queue, head, req, disk, ram).ram.bytes[req.status.addr as int]
            == model::executed(req, disk, ram).completion.unwrap().status,
{
    let e = model::executed(req, disk, ram);
    let c = e.completion.unwrap();
    let at = req.status.addr as int;
    let mid = e.ram.store_object(at, seq![c.status]).0;
    assert(e.ram.bytes.contains_key(at));
    assert(mid.bytes.contains_key(at));
    publishing_stays_in_used_ring(queue, head, c.used_len, mid, at);
}

} // verus!
