//! Where the queue lies in guest memory, how its entries and the requests behind them are read,
//! and how a request is answered.

use vstd::prelude::*;

use crate::bus::{AccessWidth, Port};
use crate::bytes;
use crate::error::VmError;
use crate::guest_memory::RamView;
use crate::virtio_blk::device::{LegacyNotifyResult, LegacyVirtioBlk};
use crate::virtio_blk::effects;
use crate::virtio_blk::laws;
use crate::virtio_blk::model;
use crate::virtio_blk::model::{BlkView, MAX_REQUESTS_PER_NOTIFY};
use crate::virtio_blk::order;
use crate::virtio_blk::queue::{Descriptor, LegacyQueue};
use crate::virtio_blk::request::RequestView;

verus! {

/// The number that the `n` bytes from `a` on make, the least significant one first.
pub open spec fn number_at(ram: RamView, a: int, n: nat) -> int
    decreases n,
{
    if n == 0 {
        0
    } else {
        ram.bytes[a] + 0x100 * number_at(ram, a + 1, (n - 1) as nat)
    }
}

/// Two bytes, read as an object, make the number that they make.
pub(crate) proof fn u16_is_number(ram: RamView, a: int)
    ensures
        ram.load_u16(a) == if ram.bytes.contains_key(a) && a + 2 <= ram.areas[a].1 {
            Some(number_at(ram, a, 2) as u16)
        } else {
            None
        },
        0 <= number_at(ram, a, 2) < 0x1_0000,
{
    reveal_with_fuel(number_at, 3);
    let raw = ram.at(a, 2);
    assert(raw[0] == ram.bytes[a] && raw[1] == ram.bytes[a + 1]);
}

/// Four bytes make the number that they make.
pub(crate) proof fn u32_is_number(ram: RamView, a: int, len: nat, i: int)
    requires
        0 <= i,
        i + 4 <= len,
    ensures
        bytes::le_u32_at(ram.at(a, len), i) == number_at(ram, a + i, 4),
        0 <= number_at(ram, a + i, 4) < 0x1_0000_0000,
{
    reveal_with_fuel(number_at, 5);
    let raw = ram.at(a, len);
    assert(raw[i] == ram.bytes[a + i] && raw[i + 1] == ram.bytes[a + i + 1] && raw[i + 2]
        == ram.bytes[a + i + 2] && raw[i + 3] == ram.bytes[a + i + 3]);
}

/// Eight bytes make the number that they make.
pub(crate) proof fn u64_is_number(ram: RamView, a: int, len: nat, i: int)
    requires
        0 <= i,
        i + 8 <= len,
    ensures
        bytes::le_u64_at(ram.at(a, len), i) == number_at(ram, a + i, 8),
{
    u32_is_number(ram, a, len, i);
    u32_is_number(ram, a, len, i + 4);
    assert(number_at(ram, a + i, 8) == number_at(ram, a + i, 4) + 0x1_0000_0000 * number_at(
        ram,
        a + i + 4,
        4,
    )) by {
        reveal_with_fuel(number_at, 9);
    }
}

/// The descriptor table starts at the page of the queue, the available ring right behind its
/// entries of 16 bytes, and the used ring at the first page boundary behind the available ring,
/// which has 4 bytes and 2 more for each entry.
pub proof fn queue_lies_at_its_page(queue: LegacyQueue)
    ensures
        queue.table() == 4096 * queue.pfn,
        queue.avail_ring() == 4096 * queue.pfn + 16 * queue.size,
        queue.used_ring() % 4096 == 0,
        queue.avail_ring() + 4 + 2 * queue.size <= queue.used_ring() < queue.avail_ring() + 4 + 2
            * queue.size + 4096,
{
}

/// A descriptor can be read exactly where the queue is set up, has it, and all of its 16 bytes are
/// mapped; its address, its length, its flags and its successor are the numbers that stand there.
pub proof fn descriptor_is_read_from_table(queue: LegacyQueue, index: u16, ram: RamView)
    ensures
        ({
            let at = 4096 * queue.pfn + 16 * index;
            &&& queue.desc(index, ram) is Some <==> queue.pfn != 0 && index < queue.size
                && forall|a: int| at <= a < at + 16 ==> #[trigger] ram.bytes.contains_key(a)
            &&& queue.desc(index, ram) matches Some(d) ==> {
                &&& d.addr == number_at(ram, at, 8)
                &&& d.len == number_at(ram, at + 8, 4)
                &&& d.flags == number_at(ram, at + 12, 2)
                &&& d.next == number_at(ram, at + 14, 2)
            }
        }),
{
    let at = 4096 * queue.pfn + 16 * index;
    assert(ram.mapped(at, 16) <==> forall|a: int|
        at <= a < at + 16 ==> #[trigger] ram.bytes.contains_key(a));
    u64_is_number(ram, at, 16, 0);
    u32_is_number(ram, at, 16, 8);
    reveal_with_fuel(number_at, 3);
    let raw = ram.at(at, 16);
    assert(raw[12] == ram.bytes[at + 12] && raw[13] == ram.bytes[at + 13] && raw[14]
        == ram.bytes[at + 14] && raw[15] == ram.bytes[at + 15]);
}

/// The lowest bit of the flags says that another descriptor follows, and the bit above it that the
/// device may write the buffer.
pub proof fn flags_are_bits(d: Descriptor)
    ensures
        d.has_next() <==> d.flags % 2 == 1,
        d.is_writable() <==> d.flags / 2 % 2 == 1,
{
    let flags = d.flags;
    assert((flags & 1 != 0) <==> flags % 2 == 1) by (bit_vector);
    assert((flags & 2 != 0) <==> flags / 2 % 2 == 1) by (bit_vector);
}

/// Descriptors that are linked from the head on, and end within the limit, are the chain. With
/// what holds of an accepted chain, a chain is accepted exactly where it ends within the limit.
pub proof fn linked_descriptors_are_the_chain(
    queue: LegacyQueue,
    head: u16,
    limit: nat,
    ram: RamView,
    c: Seq<Descriptor>,
)
    requires
        1 <= c.len() <= limit,
        queue.desc(head, ram) == Some(c[0]),
        c.last().flags % 2 == 0,
        forall|i: int|
            #![trigger c[i]]
            0 <= i < c.len() - 1 ==> c[i].flags % 2 == 1 && queue.desc(c[i].next, ram) == Some(
                c[i + 1],
            ),
    ensures
        queue.chain(head, limit, ram) == Some(c),
    decreases limit,
{
    flags_are_bits(c[0]);
    if c.len() == 1 {
        assert(c =~= seq![c[0]]);
    } else {
        let rest = c.skip(1);
        assert(c[0].flags % 2 == 1);
        assert forall|i: int|
            #![trigger rest[i]]
            0 <= i < rest.len() - 1 implies rest[i].flags % 2 == 1 && queue.desc(rest[i].next, ram)
            == Some(rest[i + 1]) by {
            assert(rest[i] == c[i + 1]);
            assert(rest[i + 1] == c[i + 2]);
        }
        linked_descriptors_are_the_chain(queue, c[0].next, (limit - 1) as nat, ram, rest);
        assert(seq![c[0]] + rest =~= c);
    }
}

/// A chain makes a request exactly where it has a header and a status descriptor, the header is
/// readable for the device and has 16 bytes that are mapped, and the status descriptor is one that
/// the device may write and has a byte. The kind and the sector are the numbers in the header, the
/// descriptors between header and status are the data.
pub proof fn request_is_read_from_chain(c: Seq<Descriptor>, ram: RamView)
    ensures
        ({
            let usable = c.len() >= 2 && c[0].flags / 2 % 2 == 0 && c[0].len >= 16 && c.last().flags
                / 2 % 2 == 1 && c.last().len >= 1 && forall|a: int|
                c[0].addr <= a < c[0].addr + 16 ==> #[trigger] ram.bytes.contains_key(a);
            &&& RequestView::parsed(c, ram) is Some <==> usable
            &&& RequestView::parsed(c, ram) matches Some(req) ==> {
                &&& req.kind == number_at(ram, c[0].addr as int, 4)
                &&& req.sector == number_at(ram, c[0].addr + 8, 8)
                &&& req.data.len() == c.len() - 2
                &&& forall|j: int| 0 <= j < req.data.len() ==> #[trigger] req.data[j] == c[j + 1]
                &&& req.status == c[c.len() - 1]
            }
        }),
{
    if c.len() >= 2 {
        let at = c[0].addr as int;
        flags_are_bits(c[0]);
        flags_are_bits(c.last());
        assert(ram.mapped(at, 16) <==> forall|a: int|
            at <= a < at + 16 ==> #[trigger] ram.bytes.contains_key(a));
        u32_is_number(ram, at, 16, 0);
        u64_is_number(ram, at, 16, 8);
    }
}

/// Where the available index lies in memory.
pub open spec fn index_at(queue: LegacyQueue) -> int {
    4096 * queue.pfn + 16 * queue.size + 2
}

/// Where the entry of the available ring lies that is next.
pub open spec fn entry_at(queue: LegacyQueue) -> int {
    4096 * queue.pfn + 16 * queue.size + 4 + 2 * (queue.last_avail_idx % queue.size)
}

/// The two bytes at the address can be read as one number.
pub open spec fn has_u16(ram: RamView, a: int) -> bool {
    ram.bytes.contains_key(a) && a + 2 <= ram.areas[a].1
}

/// A request waits exactly where the available index differs from the position of the queue, and
/// its head stands in the entry that the position names: the position, modulo the size of the
/// queue. Taking it moves the position on by one.
pub proof fn next_entry_is_at_position(queue: LegacyQueue, ram: RamView)
    requires
        queue.wf(),
    ensures
        queue.available(ram) is None <==> queue.pfn == 0 || !has_u16(ram, index_at(queue)) || (
        number_at(ram, index_at(queue), 2) != queue.last_avail_idx && !has_u16(
            ram,
            entry_at(queue),
        )),
        queue.pfn != 0 && has_u16(ram, index_at(queue)) && number_at(ram, index_at(queue), 2)
            == queue.last_avail_idx <==> queue.available(ram) == Some(None::<u16>),
        queue.available(ram) matches Some(Some(head)) ==> {
            &&& has_u16(ram, entry_at(queue))
            &&& head == number_at(ram, entry_at(queue), 2)
        },
        queue.pfn != 0 && has_u16(ram, index_at(queue)) && number_at(ram, index_at(queue), 2)
            != queue.last_avail_idx && has_u16(ram, entry_at(queue)) ==> queue.available(
            ram,
        ) matches Some(Some(head)),
        queue.advanced().size == queue.size && queue.advanced().pfn == queue.pfn,
        queue.advanced().last_avail_idx == if queue.last_avail_idx == 0xffff {
            0
        } else {
            queue.last_avail_idx + 1
        },
{
    u16_is_number(ram, index_at(queue));
    u16_is_number(ram, entry_at(queue));
}

/// The chain from a head on does not depend on the position of the queue.
proof fn chain_ignores_position(queue: LegacyQueue, head: u16, limit: nat, ram: RamView)
    ensures
        queue.advanced().chain(head, limit, ram) == queue.chain(head, limit, ram),
    decreases limit,
{
    if limit > 0 {
        if let Some(d) = queue.desc(head, ram) {
            chain_ignores_position(queue, d.next, (limit - 1) as nat, ram);
        }
    }
}

/// The request that waits is the one that the chain from the next entry on makes, and one waits
/// wherever an entry is there, its chain ends within as many descriptors as the queue has, and the
/// chain makes a request.
pub proof fn waiting_request_is_that_of_next_entry(queue: LegacyQueue, ram: RamView)
    requires
        queue.wf(),
    ensures
        model::waiting(queue, ram) matches Some(w) ==> {
            &&& number_at(ram, index_at(queue), 2) != queue.last_avail_idx
            &&& w.0 == number_at(ram, entry_at(queue), 2)
            &&& queue.chain(w.0, queue.size as nat, ram) is Some
            &&& RequestView::parsed(queue.chain(w.0, queue.size as nat, ram).unwrap(), ram)
                == Some(w.1)
        },
        ({
            let head = number_at(ram, entry_at(queue), 2) as u16;
            let chain = queue.chain(head, queue.size as nat, ram);
            queue.pfn != 0 && has_u16(ram, index_at(queue)) && number_at(ram, index_at(queue), 2)
                != queue.last_avail_idx && has_u16(ram, entry_at(queue)) && chain is Some
                && RequestView::parsed(chain.unwrap(), ram) is Some ==> model::waiting(queue, ram)
                == Some((head, RequestView::parsed(chain.unwrap(), ram).unwrap()))
        }),
{
    next_entry_is_at_position(queue, ram);
    u16_is_number(ram, entry_at(queue));
    let head = number_at(ram, entry_at(queue), 2) as u16;
    chain_ignores_position(queue, head, queue.size as nat, ram);
}

/// Where the element of the used ring lies that comes next.
pub open spec fn element_at(queue: LegacyQueue, ram: RamView) -> int {
    queue.used_ring() + 4 + 8 * (number_at(ram, queue.used_ring() + 2, 2) % queue.size as int)
}

/// The four bytes at the address can be written as one number.
pub open spec fn has_u32(ram: RamView, a: int) -> bool {
    ram.bytes.contains_key(a) && a + 4 <= ram.areas[a].1
}

/// The device can answer a request: its status byte, the used index and the next element of the
/// used ring are mapped, and neither the status byte nor a buffer lies in the queue.
pub open spec fn answerable(queue: LegacyQueue, req: RequestView, ram: RamView) -> bool {
    &&& queue.wf() && queue.pfn != 0
    &&& ram.coherent()
    &&& ram.bytes.contains_key(req.status.addr as int)
    &&& req.status.addr + 1 <= ram.areas[req.status.addr as int].1
    &&& has_u16(ram, queue.used_ring() + 2)
    &&& has_u32(ram, element_at(queue, ram))
    &&& has_u32(ram, element_at(queue, ram) + 4)
    &&& order::keeps_off_queue(queue, req)
}

/// A request that has been carried out, and that the device can answer, is answered: its status
/// byte says how it ended, the next element of the used ring names its head and how much was
/// written, and the used index has moved on by one.
pub proof fn completed_request_is_answered(
    queue: LegacyQueue,
    head: u16,
    req: RequestView,
    disk: Seq<u8>,
    ram: RamView,
)
    requires
        answerable(queue, req, ram),
        model::executed(req, disk, ram).completion is Some,
    ensures
        ({
            let e = model::executed(req, disk, ram);
            let c = e.completion.unwrap();
            let s = model::answered(queue, head, req, disk, ram);
            let at = element_at(queue, ram);
            &&& s.turn is Served
            &&& s.disk == e.disk
            &&& s.ram.bytes[req.status.addr as int] == c.status
            &&& number_at(s.ram, at, 4) == head
            &&& number_at(s.ram, at + 4, 4) == c.used_len
            &&& number_at(s.ram, queue.used_ring() + 2, 2) == (number_at(
                ram,
                queue.used_ring() + 2,
                2,
            ) + 1) % 0x1_0000
        }),
{
    let e = model::executed(req, disk, ram);
    let c = e.completion.unwrap();
    let s = model::answered(queue, head, req, disk, ram);
    let used = queue.used_ring();
    let status = req.status.addr as int;
    let at = element_at(queue, ram);
    order::execution_stays_in_buffers(req, disk, ram);
    let mid = e.ram.store_object(status, seq![c.status]).0;
    assert(e.ram.bytes.contains_key(status));
    assert(mid.bytes.dom() =~= e.ram.bytes.dom());
    assert forall|a: int| order::in_queue(queue, a) implies #[trigger] order::same_byte(
        ram,
        mid,
        a,
    ) by {
        assert(order::in_no_buffer(req.data, 0, a)) by {
            assert forall|j: int| 0 <= j < req.data.len() implies !#[trigger] model::in_buffer(
                req.data[j],
                a,
            ) by {}
        }
        assert(order::same_byte(ram, e.ram, a));
        if ram.bytes.contains_key(a) {
            assert(e.ram.bytes.contains_key(a));
        }
    }
    assert(used >= queue.avail_ring() + 4 + queue.size * 2);
    assert(order::in_queue(queue, used + 2) && order::in_queue(queue, used + 3));
    assert(ram.bytes.contains_key(used + 3));
    assert(order::same_byte(ram, mid, used + 2) && order::same_byte(ram, mid, used + 3));
    assert(number_at(mid, used + 2, 2) == number_at(ram, used + 2, 2)) by {
        reveal_with_fuel(number_at, 3);
    }
    u16_is_number(ram, used + 2);
    u16_is_number(mid, used + 2);
    assert(mid.bytes.contains_key(used + 2));
    let idx = mid.load_u16(used + 2).unwrap();
    assert(used + idx % queue.size * 8 + 4 == at);
    assert(mid.bytes.contains_key(at) && mid.bytes.contains_key(at + 4));
    let ram1 = mid.store_object(at, bytes::le_bytes_u32(head as u32)).0;
    let ram2 = ram1.store_object(at + 4, bytes::le_bytes_u32(c.used_len)).0;
    assert(ram1.bytes.contains_key(at + 4));
    assert(ram1.bytes.contains_key(used + 2));
    assert(ram2.bytes.contains_key(used + 2));
    assert(queue.published(head, c.used_len, mid).1);
    assert(s.turn is Served);
    assert(mid.coherent()) by {
        assert forall|a: int, b: int|
            #![trigger mid.bytes.contains_key(a), mid.bytes.contains_key(b)]
            mid.bytes.contains_key(a) && a <= b < mid.areas[a].1 implies mid.bytes.contains_key(
            b,
        ) by {
            assert(ram.bytes.contains_key(a) && ram.bytes.contains_key(b));
        }
    }
    laws::published_element_reads_back(queue, head, c.used_len, mid);
    u32_is_number(s.ram, at, 4, 0);
    u32_is_number(s.ram, at + 4, 4, 0);
    u16_is_number(s.ram, used + 2);
    laws::status_byte_tells_the_end(queue, head, req, disk, ram);
}

/// A write that fits is done and answered with success: the disk holds byte `k` of the buffer at
/// index `j` at its place, and the status byte is zero.
pub proof fn fitting_write_is_answered_with_success(
    queue: LegacyQueue,
    head: u16,
    req: RequestView,
    disk: Seq<u8>,
    ram: RamView,
    j: int,
    k: int,
)
    requires
        answerable(queue, req, ram),
        req.kind == 1,
        0 <= j < req.data.len(),
        0 <= k < req.data[j].len,
        effects::all_readable(req.data),
        effects::all_reachable(req.data, ram),
        req.sector * 512 + effects::bytes_before(req.data, req.data.len() as int) <= disk.len(),
    ensures
        ({
            let s = model::answered(queue, head, req, disk, ram);
            &&& s.turn is Served
            &&& s.ram.bytes[req.status.addr as int] == 0
            &&& s.disk.len() == disk.len()
            &&& s.disk[req.sector * 512 + effects::bytes_before(req.data, j) + k]
                == ram.bytes[req.data[j].addr + k]
        }),
{
    effects::write_is_done_iff_it_fits(req, disk, ram, j, k, 0);
    completed_request_is_answered(queue, head, req, disk, ram);
}

/// How many requests wait: as many as the available index is ahead of the position of the queue.
pub open spec fn waiting_count(queue: LegacyQueue, ram: RamView) -> int {
    (number_at(ram, index_at(queue), 2) - queue.last_avail_idx) % 0x1_0000
}

/// A turn that serves a request leaves one fewer waiting, where the request keeps off the queue.
proof fn turn_leaves_one_fewer(queue: LegacyQueue, disk: Seq<u8>, ram: RamView)
    requires
        queue.wf(),
        ram.coherent(),
        model::waiting(queue, ram) matches Some(w) && order::keeps_off_queue(queue, w.1),
        model::step(queue, disk, ram).turn is Served,
    ensures
        ({
            let t = model::step(queue, disk, ram);
            &&& t.queue == queue.advanced()
            &&& t.ram.coherent()
            &&& waiting_count(queue, ram) > 0
            &&& waiting_count(t.queue, t.ram) == waiting_count(queue, ram) - 1
        }),
{
    let t = model::step(queue, disk, ram);
    let a = index_at(queue);
    next_entry_is_at_position(queue, ram);
    u16_is_number(ram, a);
    order::turn_answers_in_its_slot(queue, disk, ram);
    queue_lies_at_its_page(queue);
    assert(order::in_queue(queue, a) && order::in_queue(queue, a + 1));
    assert(order::same_byte(ram, t.ram, a) && order::same_byte(ram, t.ram, a + 1));
    assert(ram.bytes.contains_key(a) && ram.bytes.contains_key(a + 1));
    assert(number_at(t.ram, a, 2) == number_at(ram, a, 2)) by {
        reveal_with_fuel(number_at, 3);
    }
    assert(index_at(t.queue) == a);
    count_steps_down(number_at(ram, a, 2), queue.last_avail_idx as int);
}

/// How far one 16-bit counter is ahead of another falls by one when the other one moves on.
proof fn count_steps_down(idx: int, last: int)
    requires
        0 <= idx < 0x1_0000,
        0 <= last < 0x1_0000,
        idx != last,
    ensures
        (idx - last) % 0x1_0000 > 0,
        (idx - (last + 1) % 0x1_0000) % 0x1_0000 == (idx - last) % 0x1_0000 - 1,
{
}

/// Serving the queue comes to an end: where no request has a buffer or its status byte in the
/// queue, no more requests are served than wait, and where all of them can be served, all of them
/// are.
pub proof fn serving_ends(
    queue: LegacyQueue,
    disk: Seq<u8>,
    ram: RamView,
    left: nat,
    count: nat,
)
    requires
        queue.wf(),
        ram.coherent(),
        order::all_keep_off_queue(queue, disk, ram, left),
        left > waiting_count(queue, ram),
    ensures
        ({
            let s = model::served(queue, disk, ram, left, count);
            &&& !(s.outcome is Limit)
            &&& s.count <= count + waiting_count(queue, ram)
            &&& s.outcome is Complete ==> s.count == count + waiting_count(queue, ram)
        }),
    decreases left,
{
    let t = model::step(queue, disk, ram);
    let s = model::served(queue, disk, ram, left, count);
    laws::step_moves_by_one(queue, disk, ram);
    u16_is_number(ram, index_at(queue));
    if t.turn is Served {
        turn_leaves_one_fewer(queue, disk, ram);
        assert(s == model::served(t.queue, t.disk, t.ram, (left - 1) as nat, count + 1));
        serving_ends(t.queue, t.disk, t.ram, (left - 1) as nat, count + 1);
    } else if t.turn is Idle {
        next_entry_is_at_position(queue, ram);
        assert(waiting_count(queue, ram) == 0);
    }
}

/// A notification never gives up on a queue whose requests keep off the queue. Where all waiting
/// requests can be served, all of them are, and their number is reported; the interrupt status has
/// its lowest bit set where there were any, and is as it was otherwise.
pub proof fn notification_serves_all_that_wait(blk: BlkView, ram: RamView)
    requires
        blk.wf(),
        ram.coherent(),
        order::all_keep_off_queue(blk.queue, blk.disk, ram, MAX_REQUESTS_PER_NOTIFY as nat),
    ensures
        ({
            let w = model::notified(blk, ram);
            &&& w.result != Err::<nat, VmError>(VmError::TimedOut)
            &&& w.result matches Ok(n) ==> n == waiting_count(blk.queue, ram)
            &&& w.result matches Ok(n) ==> w.blk.isr_status == if n > 0 && blk.isr_status % 2 == 0 {
                blk.isr_status + 1
            } else {
                blk.isr_status as int
            }
            &&& w.blk.status == blk.status
        }),
{
    u16_is_number(ram, index_at(blk.queue));
    serving_ends(blk.queue, blk.disk, ram, MAX_REQUESTS_PER_NOTIFY as nat, 0);
    let isr = blk.isr_status;
    assert((isr | 1) == if isr % 2 == 0 {
        (isr + 1) as u8
    } else {
        isr
    }) by (bit_vector);
}

/// A request that waits alone, and is served, is all that a notification serves.
pub proof fn lone_request_is_served(blk: BlkView, ram: RamView)
    requires
        model::step(blk.queue, blk.disk, ram).turn is Served,
        ({
            let s = model::step(blk.queue, blk.disk, ram);
            s.queue.available(s.ram) == Some(None::<u16>)
        }),
    ensures
        ({
            let s = model::step(blk.queue, blk.disk, ram);
            let w = model::notified(blk, ram);
            &&& w.result == Ok::<nat, VmError>(1)
            &&& w.ram == s.ram
            &&& w.blk.disk == s.disk
            &&& w.blk.queue == s.queue
            &&& w.blk.isr_status % 2 == 1
        }),
{
    reveal_with_fuel(model::served, 3);
    let isr = blk.isr_status;
    assert((isr | 1) % 2 == 1) by (bit_vector);
}

/// The result of a notification tells whether anything was published, asks for an interrupt
/// exactly then, and counts what was published, up to what its field holds.
pub proof fn result_tells_what_was_published(count: nat)
    ensures
        ({
            let r = LegacyNotifyResult::for_count(count);
            &&& r.used_any == (count != 0)
            &&& r.should_raise_irq == (count != 0)
            &&& count <= 0xffff ==> r.published_used_count == count
            &&& count > 0xffff ==> r.published_used_count == 0xffff
        }),
{
}

/// A write to a register changes that register alone: the queue size does not touch the page and
/// the position, the page starts the queue afresh exactly where it is another one, the status is
/// its own, and a write anywhere else, or in another width, changes nothing. A port outside the
/// device is refused.
pub proof fn register_write_keeps_the_rest(
    blk: BlkView,
    port: Port,
    width: AccessWidth,
    value: usize,
    ram: RamView,
)
    ensures
        ({
            let w = model::written(blk, port, width, value, ram);
            let sizes = port.0 == 0x600c && width == AccessWidth::Word;
            let pages = port.0 == 0x6008 && width == AccessWidth::Dword;
            let rings = port.0 == 0x6010 && width == AccessWidth::Word;
            let sets = port.0 == 0x6012 && width == AccessWidth::Byte;
            &&& !rings ==> w.ram == ram && w.blk.disk == blk.disk && w.blk.isr_status
                == blk.isr_status
            &&& 0x6000 <= port.0 < 0x6080 && !rings ==> w.result == Ok::<nat, VmError>(0)
            &&& !(port.0 >= 0x6000 && port.0 < 0x6080) ==> w.result == Err::<nat, VmError>(
                VmError::InvalidInput,
            ) && w.blk == blk
            &&& !sizes && !pages && !rings && !sets ==> w.blk == blk
            &&& sizes ==> w.blk.queue.pfn == blk.queue.pfn && w.blk.queue.last_avail_idx
                == blk.queue.last_avail_idx && w.blk.status == blk.status
            &&& pages ==> w.blk.queue.size == blk.queue.size && w.blk.status == blk.status
            &&& pages && w.blk.queue.pfn == blk.queue.pfn ==> w.blk.queue.last_avail_idx
                == blk.queue.last_avail_idx
            &&& pages && w.blk.queue.pfn != blk.queue.pfn ==> w.blk.queue.last_avail_idx == 0
            &&& sets ==> w.blk.queue == blk.queue
            &&& rings ==> w == model::notified(blk, ram)
        }),
{
}

/// Only the page, the size, the capacity, the status and the interrupt status can be read, each in
/// its own width; anything else reads as zero. The capacity is in sectors of 512 bytes.
pub proof fn registers_are_where_they_are(blk: BlkView, offset: int, width: AccessWidth)
    ensures
        model::register(blk, 0x08, AccessWidth::Dword) == blk.queue.pfn,
        model::register(blk, 0x0c, AccessWidth::Word) == blk.queue.size,
        model::register(blk, 0x12, AccessWidth::Byte) == blk.status,
        model::register(blk, 0x13, AccessWidth::Byte) == blk.isr_status,
        ({
            let sectors = model::register(blk, 0x14, AccessWidth::Dword) + 0x1_0000_0000
                * model::register(blk, 0x18, AccessWidth::Dword);
            &&& 0 <= model::register(blk, 0x14, AccessWidth::Dword) < 0x1_0000_0000
            &&& 512 * sectors <= blk.disk.len() < 512 * (sectors + 1)
        }),
        !(offset == 0x08 && width == AccessWidth::Dword || offset == 0x0c && width
            == AccessWidth::Word || offset == 0x14 && width == AccessWidth::Dword || offset == 0x18
            && width == AccessWidth::Dword || offset == 0x12 && width == AccessWidth::Byte || offset
            == 0x13 && width == AccessWidth::Byte) ==> model::register(blk, offset, width) == 0,
{
}

/// A turn that finds an entry moves the position on by one, whether or not the request behind the
/// entry can be served: it is not tried again. Where no request can be read, the disk and the
/// memory stay as they are; where not even the entry can be read, the position stays as well.
pub proof fn faulty_entry_is_passed(queue: LegacyQueue, disk: Seq<u8>, ram: RamView)
    requires
        queue.wf(),
    ensures
        ({
            let s = model::step(queue, disk, ram);
            let found = queue.pfn != 0 && has_u16(ram, index_at(queue)) && number_at(
                ram,
                index_at(queue),
                2,
            ) != queue.last_avail_idx && has_u16(ram, entry_at(queue));
            &&& found ==> s.queue.last_avail_idx == (queue.last_avail_idx + 1) % 0x1_0000
            &&& !found ==> s.queue.last_avail_idx == queue.last_avail_idx
            &&& s.queue.size == queue.size && s.queue.pfn == queue.pfn
            &&& model::waiting(queue, ram) is None ==> s.disk == disk && s.ram == ram
                && !(s.turn is Served)
            &&& found ==> !(s.turn is Idle)
        }),
{
    next_entry_is_at_position(queue, ram);
}

/// Where serving comes to a request whose reported length does not fit, it stops before it: as many
/// requests have been served as come before it, in the way in which they are always served, and it
/// still waits.
pub proof fn serving_stops_before_overflow(
    queue: LegacyQueue,
    disk: Seq<u8>,
    ram: RamView,
    left: nat,
)
    ensures
        model::serving_overflows(queue, disk, ram, left) ==> exists|n: nat|
            #[trigger] stops_after(queue, disk, ram, left, n),
    decreases left,
{
    if left > 0 && model::serving_overflows(queue, disk, ram, left) {
        if model::waiting(queue, ram) is Some && model::length_overflows(
            model::waiting(queue, ram).unwrap().1,
            disk,
            ram,
        ) {
            assert(stops_after(queue, disk, ram, left, 0));
        } else {
            let s = model::step(queue, disk, ram);
            let fewer = (left - 1) as nat;
            serving_stops_before_overflow(s.queue, s.disk, s.ram, fewer);
            let n = choose|n: nat| #[trigger] stops_after(s.queue, s.disk, s.ram, fewer, n);
            assert(model::served(queue, disk, ram, n + 1, 0).queue == model::served(
                s.queue,
                s.disk,
                s.ram,
                n,
                1,
            ).queue);
            count_only_counts(s.queue, s.disk, s.ram, n, 0, 1);
            assert(stops_after(queue, disk, ram, left, n + 1));
        }
    }
}

/// Serving stops after `n` requests, all of them served, before a request whose reported length
/// does not fit.
pub open spec fn stops_after(
    queue: LegacyQueue,
    disk: Seq<u8>,
    ram: RamView,
    left: nat,
    n: nat,
) -> bool {
    let stopped = model::served_until_overflow(queue, disk, ram, left);
    let before = model::served(queue, disk, ram, n, 0);
    let next = model::waiting(stopped.queue, stopped.ram);
    &&& n < left
    &&& before.count == n
    &&& stopped.queue == before.queue && stopped.disk == before.disk && stopped.ram == before.ram
    &&& next is Some && model::length_overflows(next.unwrap().1, stopped.disk, stopped.ram)
}

/// How many requests were served before does not matter for how others are served.
proof fn count_only_counts(
    queue: LegacyQueue,
    disk: Seq<u8>,
    ram: RamView,
    left: nat,
    a: nat,
    b: nat,
)
    ensures
        ({
            let x = model::served(queue, disk, ram, left, a);
            let y = model::served(queue, disk, ram, left, b);
            &&& x.queue == y.queue && x.disk == y.disk && x.ram == y.ram
            &&& x.outcome == y.outcome
            &&& x.count - a == y.count - b
        }),
    decreases left,
{
    if left > 0 {
        let s = model::step(queue, disk, ram);
        if s.turn is Served {
            count_only_counts(s.queue, s.disk, s.ram, (left - 1) as nat, a + 1, b + 1);
        }
    }
}

/// Serving comes to a request whose reported length does not fit wherever, within the limit, such a
/// request waits behind requests that are all served.
pub proof fn overflow_is_met(queue: LegacyQueue, disk: Seq<u8>, ram: RamView, left: nat, n: nat)
    requires
        n < left,
        model::served(queue, disk, ram, n, 0).count == n,
        ({
            let before = model::served(queue, disk, ram, n, 0);
            let next = model::waiting(before.queue, before.ram);
            next is Some && model::length_overflows(next.unwrap().1, before.disk, before.ram)
        }),
    ensures
        model::serving_overflows(queue, disk, ram, left),
    decreases left,
{
    if n > 0 {
        let s = model::step(queue, disk, ram);
        if s.turn is Served {
            count_only_counts(s.queue, s.disk, s.ram, (n - 1) as nat, 0, 1);
            overflow_is_met(s.queue, s.disk, s.ram, (left - 1) as nat, (n - 1) as nat);
        }
    }
}

/// A notification that comes to a request which cannot be served is refused, and one that serves as
/// many requests as it may without coming to an end gives up. Either way the requests that were
/// served before stay served, and no interrupt is asked for.
pub proof fn refused_notification_keeps_what_was_served(blk: BlkView, ram: RamView)
    ensures
        ({
            let w = model::notified(blk, ram);
            let s = model::served(
                blk.queue,
                blk.disk,
                ram,
                MAX_REQUESTS_PER_NOTIFY as nat,
                0,
            );
            &&& w.result is Ok <==> s.outcome is Complete
            &&& s.outcome is Fault ==> w.result == Err::<nat, VmError>(VmError::InvalidInput)
            &&& s.outcome is Limit ==> w.result == Err::<nat, VmError>(VmError::TimedOut)
            &&& w.blk.queue == s.queue && w.blk.disk == s.disk && w.ram == s.ram
            &&& w.blk.status == blk.status
            &&& w.result is Err ==> w.blk.isr_status == blk.isr_status
        }),
{
}

/// The device has the 128 ports from 0x6000 on.
pub proof fn device_has_its_ports(port: Port)
    ensures
        LegacyVirtioBlk::owns(port) <==> 0x6000 <= port.0 <= 0x607f,
{
}

/// Only a notification, which is a word to port 0x6010, can come to a request whose reported length
/// does not fit.
pub proof fn only_notifications_overflow(
    blk: BlkView,
    port: Port,
    width: AccessWidth,
    ram: RamView,
)
    ensures
        model::write_overflows(blk, port, width, ram) <==> port.0 == 0x6010 && width
            == AccessWidth::Word && model::serving_overflows(
            blk.queue,
            blk.disk,
            ram,
            MAX_REQUESTS_PER_NOTIFY as nat,
        ),
{
}

} // verus!
