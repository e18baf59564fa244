//! In which order a notification answers the requests of the queue.

use vstd::prelude::*;

use crate::bytes;
use crate::guest_memory;
use crate::guest_memory::RamView;
use crate::virtio_blk::laws;
use crate::virtio_blk::model;
use crate::virtio_blk::queue::{Descriptor, LegacyQueue};
use crate::virtio_blk::request::{RequestView, VIRTIO_BLK_T_IN};

verus! {

/// The address is one of the queue: of its descriptor table, of one of its rings, or between them.
pub open spec fn in_queue(queue: LegacyQueue, a: int) -> bool {
    queue.table() <= a < queue.used_ring() + 4 + 8 * queue.size
}

/// Neither the buffers nor the status byte of the request lie in the queue.
pub open spec fn keeps_off_queue(queue: LegacyQueue, req: RequestView) -> bool {
    &&& !in_queue(queue, req.status.addr as int)
    &&& forall|j: int, a: int|
        0 <= j < req.data.len() && #[trigger] model::in_buffer(req.data[j], a) ==> !in_queue(
            queue,
            a,
        )
}

/// None of the requests that serving the queue comes to has buffers or a status byte in the queue.
pub open spec fn all_keep_off_queue(
    queue: LegacyQueue,
    disk: Seq<u8>,
    ram: RamView,
    left: nat,
) -> bool
    decreases left,
{
    left > 0 ==> {
        let s = model::step(queue, disk, ram);
        &&& model::waiting(queue, ram) matches Some(w) ==> keeps_off_queue(queue, w.1)
        &&& s.turn is Served ==> all_keep_off_queue(s.queue, s.disk, s.ram, (left - 1) as nat)
    }
}

/// The slot of a ring of the queue that the element `j` places after `idx` takes.
pub open spec fn slot(queue: LegacyQueue, idx: u16, j: int) -> int {
    (idx + j) % 0x1_0000 % queue.size as int
}

/// Where the entry in a slot of the available ring lies.
pub open spec fn avail_entry(queue: LegacyQueue, slot: int) -> int {
    queue.avail_ring() + 4 + slot * 2
}

/// Where the element in a slot of the used ring lies.
pub open spec fn used_element(queue: LegacyQueue, slot: int) -> int {
    queue.used_ring() + 4 + slot * 8
}

/// The head of the chain that the element in a slot of the used ring names.
pub open spec fn used_head(queue: LegacyQueue, slot: int, ram: RamView) -> u32 {
    bytes::le_u32_at(ram.at(used_element(queue, slot), 4), 0)
}

/// The byte at the address, where it is mapped, is the same in both memories.
pub open spec fn same_byte(before: RamView, after: RamView, a: int) -> bool {
    before.bytes.contains_key(a) ==> after.bytes[a] == before.bytes[a]
}

/// The two memories are mapped in the same way.
pub open spec fn same_mapping(before: RamView, after: RamView) -> bool {
    &&& after.bytes.dom() == before.bytes.dom()
    &&& after.areas == before.areas
    &&& after.host == before.host
}

/// No element from the one `j` places after `idx` on, up to the one `n` places after it, takes the
/// slot.
pub open spec fn slot_is_left(queue: LegacyQueue, idx: u16, j: int, n: int, t: int) -> bool {
    forall|k: int| j <= k < n ==> #[trigger] slot(queue, idx, k) != t
}

/// The address lies in the element in a slot of the used ring.
pub open spec fn in_element(queue: LegacyQueue, t: int, a: int) -> bool {
    used_element(queue, t) <= a < used_element(queue, t) + 8
}

/// The descriptor table and the available ring are the same in both memories.
pub open spec fn rings_stay(queue: LegacyQueue, before: RamView, after: RamView) -> bool {
    forall|a: int|
        in_queue(queue, a) && a < queue.used_ring() ==> #[trigger] same_byte(before, after, a)
}

/// The slots of the used ring that none of the `n` elements from `idx` on takes are the same in
/// both memories.
pub open spec fn other_slots_stay(
    queue: LegacyQueue,
    idx: u16,
    before: RamView,
    after: RamView,
    n: int,
) -> bool {
    forall|t: int, a: int|
        0 <= t < queue.size && slot_is_left(queue, idx, 0, n, t) && #[trigger] in_element(
            queue,
            t,
            a,
        ) ==> same_byte(before, after, a)
}

/// The entry of the available ring that is `j` places after the position of the queue can be read,
/// and the element of the used ring that is `j` places after `idx` names the same head, unless one
/// of the `n` elements that comes later has taken its slot.
pub open spec fn answers_entry(
    queue: LegacyQueue,
    idx: u16,
    before: RamView,
    after: RamView,
    n: int,
    j: int,
) -> bool {
    let entry = before.load_u16(avail_entry(queue, slot(queue, queue.last_avail_idx, j)));
    let t = slot(queue, idx, j);
    &&& entry is Some
    &&& slot_is_left(queue, idx, j + 1, n, t) ==> used_head(queue, t, after) == entry.unwrap()
}

/// The used index, as the memory holds it.
pub open spec fn used_index(queue: LegacyQueue, ram: RamView) -> Option<u16> {
    ram.load_u16(queue.used_ring() + 2)
}

/// The used ring answers `n` entries of the available ring, in their order and each one once: for
/// each of them the next slot holds its head, unless a later element has taken the slot, and the
/// used index has grown by `n`. The rest of the queue is as it was.
pub open spec fn answered_in_order(
    queue: LegacyQueue,
    before: RamView,
    after: RamView,
    n: int,
) -> bool {
    let idx = used_index(queue, before).unwrap();
    &&& same_mapping(before, after)
    &&& n == 0 ==> used_index(queue, after) == used_index(queue, before)
    &&& n > 0 ==> used_index(queue, before) is Some && used_index(queue, after) == Some(
        ((idx + n) % 0x1_0000) as u16,
    )
    &&& forall|j: int| 0 <= j < n ==> #[trigger] answers_entry(queue, idx, before, after, n, j)
    &&& rings_stay(queue, before, after)
    &&& other_slots_stay(queue, idx, before, after, n)
}

/// The address lies in no buffer from index `i` on.
pub open spec fn in_no_buffer(data: Seq<Descriptor>, i: nat, a: int) -> bool {
    forall|j: int| i <= j < data.len() ==> !#[trigger] model::in_buffer(data[j], a)
}

/// Handing out the serial writes nothing outside the buffers, and maps and unmaps nothing.
proof fn serial_stays_in_buffers(data: Seq<Descriptor>, i: nat, written: nat, ram: RamView)
    ensures
        ({
            let after = model::serial_to_guest(data, i, written, ram).0;
            &&& same_mapping(ram, after)
            &&& forall|a: int| in_no_buffer(data, i, a) ==> #[trigger] same_byte(ram, after, a)
        }),
    decreases data.len() - i,
{
    if i < data.len() && written < model::serial().len() {
        let d = data[i as int];
        let end = if written + d.len <= model::serial().len() {
            (written + d.len) as nat
        } else {
            model::serial().len()
        };
        let chunk = model::serial().subrange(written as int, end as int);
        let (next, ok) = ram.store(d.addr as int, chunk);
        guest_memory::load_after_store(ram, d.addr as int, chunk);
        if ok {
            serial_stays_in_buffers(data, i + 1, end, next);
        }
        let after = model::serial_to_guest(data, i, written, ram).0;
        assert forall|a: int| in_no_buffer(data, i, a) implies #[trigger] same_byte(ram, after, a) by {
            assert(!model::in_buffer(data[i as int], a));
            if ram.bytes.contains_key(a) {
                assert(next.bytes[a] == ram.bytes[a]);
                assert(next.bytes.contains_key(a));
                if ok {
                    assert(in_no_buffer(data, i + 1, a));
                    assert(same_byte(next, after, a));
                }
            }
        }
    }
}

/// Carrying out a request writes no memory outside its buffers, and maps and unmaps nothing.
pub proof fn execution_stays_in_buffers(req: RequestView, disk: Seq<u8>, ram: RamView)
    ensures
        ({
            let after = model::executed(req, disk, ram).ram;
            &&& same_mapping(ram, after)
            &&& forall|a: int| in_no_buffer(req.data, 0, a) ==> #[trigger] same_byte(ram, after, a)
        }),
{
    let after = model::executed(req, disk, ram).ram;
    if req.known() && req.data_ok() {
        if req.kind == VIRTIO_BLK_T_IN && req.sector * 512 <= disk.len() {
            laws::transfer_stays_in_buffers(disk, req.data, 0, req.sector * 512, ram);
            assert forall|a: int| in_no_buffer(req.data, 0, a) implies #[trigger] same_byte(
                ram,
                after,
                a,
            ) by {
                if ram.bytes.contains_key(a) {
                    assert(after.bytes[a] == ram.bytes[a]);
                }
            }
        } else {
            serial_stays_in_buffers(req.data, 0, 0, ram);
        }
    }
}

/// Memory that is mapped in the same way as one in which every area is mapped throughout is so,
/// too.
proof fn same_mapping_is_coherent(before: RamView, after: RamView)
    requires
        same_mapping(before, after),
        before.coherent(),
    ensures
        after.coherent(),
{
    assert forall|a: int, b: int|
        #![trigger after.bytes.contains_key(a), after.bytes.contains_key(b)]
        after.bytes.contains_key(a) && a <= b < after.areas[a].1 implies after.bytes.contains_key(
        b,
    ) by {
        assert(before.bytes.contains_key(a));
        assert(before.bytes.contains_key(b));
    }
}

/// Publishing an element changes, of the used ring, only the index and the slot of the element.
proof fn publishing_stays_in_slot(queue: LegacyQueue, head: u16, len: u32, ram: RamView, t: int)
    requires
        queue.wf(),
        queue.published(head, len, ram).1,
        0 <= t < queue.size,
        t != ram.load_u16(queue.used_ring() + 2).unwrap() % queue.size,
    ensures
        forall|a: int|
            #[trigger] in_element(queue, t, a) ==> same_byte(
                ram,
                queue.published(head, len, ram).0,
                a,
            ),
{
    let idx = ram.load_u16(queue.used_ring() + 2).unwrap();
    let taken = idx % queue.size;
    assert(0 <= taken < queue.size);
}

/// Publishing an element maps and unmaps nothing.
proof fn publishing_keeps_mapping(queue: LegacyQueue, head: u16, len: u32, ram: RamView)
    ensures
        same_mapping(ram, queue.published(head, len, ram).0),
{
    let after = queue.published(head, len, ram).0;
    assert(after.bytes.dom() =~= ram.bytes.dom());
}

/// One turn that serves a request which keeps off the queue answers in the slot that the used
/// index names, with the head that the available ring names. It changes nothing else of the queue.
pub proof fn turn_answers_in_its_slot(queue: LegacyQueue, disk: Seq<u8>, ram: RamView)
    requires
        queue.wf(),
        ram.coherent(),
        model::waiting(queue, ram) matches Some(w) && keeps_off_queue(queue, w.1),
        model::step(queue, disk, ram).turn is Served,
    ensures
        ({
            let after = model::step(queue, disk, ram).ram;
            &&& after.coherent()
            &&& answered_in_order(queue, ram, after, 1)
            &&& ram.mapped(used_element(queue, slot(queue, used_index(queue, ram).unwrap(), 0)), 4)
        }),
{
    let (head, req) = model::waiting(queue, ram).unwrap();
    let e = model::executed(req, disk, ram);
    let c = e.completion.unwrap();
    let at = req.status.addr as int;
    let mid = e.ram.store_object(at, seq![c.status]).0;
    let q = queue.advanced();
    let after = model::step(queue, disk, ram).ram;
    assert(after == q.published(head, c.used_len, mid).0);
    execution_stays_in_buffers(req, disk, ram);
    assert(same_mapping(ram, mid)) by {
        assert(mid.bytes.dom() =~= e.ram.bytes.dom());
    }
    same_mapping_is_coherent(ram, mid);
    publishing_keeps_mapping(q, head, c.used_len, mid);
    laws::published_element_reads_back(q, head, c.used_len, mid);
    assert forall|a: int| in_queue(queue, a) implies #[trigger] same_byte(ram, mid, a) by {
        assert(in_no_buffer(req.data, 0, a));
        assert(same_byte(ram, e.ram, a));
        if ram.bytes.contains_key(a) {
            assert(e.ram.bytes.contains_key(a));
        }
    }
    let used = queue.used_ring();
    assert(used >= queue.avail_ring() + 4 + queue.size * 2);
    assert(mid.load_u16(used + 2) == ram.load_u16(used + 2)) by {
        if ram.bytes.contains_key(used + 2) && used + 4 <= ram.areas[used + 2].1 {
            assert(ram.bytes.contains_key(used + 3));
            assert(same_byte(ram, mid, used + 2));
            assert(same_byte(ram, mid, used + 3));
            assert(mid.at(used + 2, 2) =~= ram.at(used + 2, 2));
        }
    }
    let idx = used_index(queue, ram).unwrap();
    let taken = idx % queue.size;
    assert(slot(queue, idx, 0) == taken);
    assert(slot(queue, queue.last_avail_idx, 0) == queue.last_avail_idx % queue.size);
    assert(answers_entry(queue, idx, ram, after, 1, 0));
    assert(ram.mapped(used_element(queue, taken as int), 4)) by {
        assert(mid.bytes.contains_key(used_element(queue, taken as int)));
        assert forall|a: int|
            used_element(queue, taken as int) <= a < used_element(queue, taken as int) + 4 implies
            #[trigger] ram.bytes.contains_key(a) by {
            assert(mid.bytes.contains_key(a));
        }
    }
    assert forall|a: int| in_queue(queue, a) && a < used implies #[trigger] same_byte(
        ram,
        after,
        a,
    ) by {
        assert(same_byte(ram, mid, a));
        if ram.bytes.contains_key(a) {
            assert(mid.bytes.contains_key(a));
            laws::publishing_stays_in_used_ring(q, head, c.used_len, mid, a);
        }
    }
    assert forall|t: int, a: int|
        0 <= t < queue.size && slot_is_left(queue, idx, 0, 1, t) && #[trigger] in_element(
            queue,
            t,
            a,
        ) implies same_byte(ram, after, a) by {
        assert(slot(queue, idx, 0) != t);
        publishing_stays_in_slot(q, head, c.used_len, mid, t);
        assert(in_queue(queue, a));
        assert(same_byte(ram, mid, a));
        assert(in_element(q, t, a));
        assert(same_byte(mid, after, a));
        if ram.bytes.contains_key(a) {
            assert(mid.bytes.contains_key(a));
        }
    }
}

/// The slots after the first step are those of the steps that follow.
proof fn slots_follow(queue: LegacyQueue, idx: u16, j: int)
    ensures
        slot(queue, ((idx + 1) % 0x1_0000) as u16, j) == slot(queue, idx, j + 1),
{
    laws::wrapped_steps_add(idx as int, j);
}

/// A slot that is left by the elements after the first one is left by the elements that follow the
/// first step.
proof fn left_slots_follow(q: LegacyQueue, queue: LegacyQueue, idx: u16, j: int, n: int, t: int)
    requires
        q.size == queue.size,
        slot_is_left(queue, idx, j + 1, n + 1, t),
    ensures
        slot_is_left(q, ((idx + 1) % 0x1_0000) as u16, j, n, t),
{
    let next = ((idx + 1) % 0x1_0000) as u16;
    assert forall|k: int| j <= k < n implies #[trigger] slot(q, next, k) != t by {
        slots_follow(queue, idx, k);
        assert(slot(queue, idx, k + 1) != t);
    }
}

/// Where the first of `n + 1` entries is answered, and then the `n` others are, the first one stays
/// answered.
proof fn first_stays_answered(
    queue: LegacyQueue,
    idx: u16,
    ram: RamView,
    mid: RamView,
    after: RamView,
    n: int,
)
    requires
        0 <= n,
        queue.wf(),
        same_mapping(ram, mid),
        answers_entry(queue, idx, ram, mid, 1, 0),
        ram.mapped(used_element(queue, slot(queue, idx, 0)), 4),
        other_slots_stay(
            queue.advanced(),
            ((idx + 1) % 0x1_0000) as u16,
            mid,
            after,
            n,
        ),
    ensures
        answers_entry(queue, idx, ram, after, n + 1, 0),
{
    let t = slot(queue, idx, 0);
    let q = queue.advanced();
    assert(slot_is_left(queue, idx, 1, 1, t));
    if slot_is_left(queue, idx, 1, n + 1, t) {
        left_slots_follow(q, queue, idx, 0, n, t);
        let at = used_element(queue, t);
        assert(after.at(at, 4) =~= mid.at(at, 4)) by {
            assert forall|k: int| 0 <= k < 4 implies after.at(at, 4)[k] == mid.at(at, 4)[k] by {
                assert(ram.bytes.contains_key(at + k));
                assert(mid.bytes.contains_key(at + k));
                assert(in_element(q, t, at + k));
            }
        }
    }
}

/// Where the first of `n + 1` entries is answered, and then the `n` others are, these are the
/// entries after the first one.
proof fn others_are_answered(
    queue: LegacyQueue,
    idx: u16,
    ram: RamView,
    mid: RamView,
    after: RamView,
    n: int,
    j: int,
)
    requires
        0 < j <= n,
        queue.wf(),
        ram.coherent(),
        same_mapping(ram, mid),
        rings_stay(queue, ram, mid),
        answers_entry(
            queue.advanced(),
            ((idx + 1) % 0x1_0000) as u16,
            mid,
            after,
            n,
            j - 1,
        ),
    ensures
        answers_entry(queue, idx, ram, after, n + 1, j),
{
    let q = queue.advanced();
    let next = ((idx + 1) % 0x1_0000) as u16;
    let last = queue.last_avail_idx;
    let t = slot(queue, idx, j);
    slots_follow(queue, idx, j - 1);
    slots_follow(queue, last, j - 1);
    assert(slot(q, next, j - 1) == t);
    assert(slot(q, q.last_avail_idx, j - 1) == slot(queue, last, j));
    avail_entries_stay(queue, ram, mid, slot(queue, last, j));
    if slot_is_left(queue, idx, j + 1, n + 1, t) {
        left_slots_follow(q, queue, idx, j, n, t);
    }
}

/// One turn, and then `n` more entries that are answered, are `n + 1` entries that are answered.
proof fn turns_add_up(queue: LegacyQueue, ram: RamView, mid: RamView, after: RamView, n: int)
    requires
        0 <= n,
        queue.wf(),
        ram.coherent(),
        answered_in_order(queue, ram, mid, 1),
        ram.mapped(used_element(queue, slot(queue, used_index(queue, ram).unwrap(), 0)), 4),
        answered_in_order(queue.advanced(), mid, after, n),
    ensures
        answered_in_order(queue, ram, after, n + 1),
{
    let q = queue.advanced();
    let idx = used_index(queue, ram).unwrap();
    let next = ((idx + 1) % 0x1_0000) as u16;
    assert(used_index(q, mid) == Some(next));
    laws::wrapped_steps_add(idx as int, n);
    assert(answers_entry(queue, idx, ram, mid, 1, 0));
    first_stays_answered(queue, idx, ram, mid, after, n);
    assert forall|j: int| 0 <= j < n + 1 implies #[trigger] answers_entry(
        queue,
        idx,
        ram,
        after,
        n + 1,
        j,
    ) by {
        if j > 0 {
            assert(answers_entry(q, next, mid, after, n, j - 1));
            others_are_answered(queue, idx, ram, mid, after, n, j);
        }
    }
    assert forall|a: int|
        in_queue(queue, a) && a < queue.used_ring() implies #[trigger] same_byte(ram, after, a) by {
        assert(in_queue(q, a));
        assert(same_byte(ram, mid, a));
        assert(same_byte(mid, after, a));
        if ram.bytes.contains_key(a) {
            assert(mid.bytes.contains_key(a));
        }
    }
    assert forall|t: int, a: int|
        0 <= t < queue.size && slot_is_left(queue, idx, 0, n + 1, t) && #[trigger] in_element(
            queue,
            t,
            a,
        ) implies same_byte(ram, after, a) by {
        assert(slot_is_left(queue, idx, 0, 1, t));
        assert(slot_is_left(queue, idx, 1, n + 1, t));
        left_slots_follow(q, queue, idx, 0, n, t);
        assert(in_element(q, t, a));
        assert(same_byte(ram, mid, a));
        assert(same_byte(mid, after, a));
        if ram.bytes.contains_key(a) {
            assert(mid.bytes.contains_key(a));
        }
    }
}

/// A notification that serves the queue to its end answers the requests in the order of the
/// available ring, each one once, where the buffers and the status bytes of the requests do not lie
/// in the queue.
pub proof fn queue_is_answered_in_order(
    queue: LegacyQueue,
    disk: Seq<u8>,
    ram: RamView,
    left: nat,
    count: nat,
)
    requires
        queue.wf(),
        ram.coherent(),
        all_keep_off_queue(queue, disk, ram, left),
        model::served(queue, disk, ram, left, count).outcome is Complete,
    ensures
        ({
            let s = model::served(queue, disk, ram, left, count);
            &&& s.count >= count
            &&& answered_in_order(queue, ram, s.ram, s.count - count)
        }),
    decreases left,
{
    let turn = model::step(queue, disk, ram);
    let s = model::served(queue, disk, ram, left, count);
    laws::step_moves_by_one(queue, disk, ram);
    if turn.turn is Served {
        let next = (left - 1) as nat;
        assert(s == model::served(turn.queue, turn.disk, turn.ram, next, count + 1));
        turn_answers_in_its_slot(queue, disk, ram);
        queue_is_answered_in_order(turn.queue, turn.disk, turn.ram, next, count + 1);
        turns_add_up(queue, ram, turn.ram, s.ram, s.count - (count + 1));
    } else {
        assert(s.ram == ram && s.count == count);
    }
}

/// In a queue whose size divides the range of its indices, as every power of two does, as many elements
/// as the queue has descriptors take different slots: so none of them is taken by a later one.
pub proof fn elements_take_different_slots(queue: LegacyQueue, idx: u16, j: int, n: int)
    requires
        queue.wf(),
        0x1_0000int % queue.size as int == 0,
        0 <= j < n <= queue.size,
    ensures
        slot_is_left(queue, idx, j + 1, n, slot(queue, idx, j)),
{
    let size = queue.size as int;
    assert forall|k: int| j + 1 <= k < n implies #[trigger] slot(queue, idx, k) != slot(
        queue,
        idx,
        j,
    ) by {
        whole_turns_keep_the_slot(idx + k, size);
        whole_turns_keep_the_slot(idx + j, size);
        if (idx + k) % size == (idx + j) % size {
            vstd::arithmetic::div_mod::lemma_fundamental_div_mod(idx + k, size);
            vstd::arithmetic::div_mod::lemma_fundamental_div_mod(idx + j, size);
            let a = (idx + k) / size;
            let b = (idx + j) / size;
            assert(size * a - size * b == k - j);
            assert(false) by (nonlinear_arith)
                requires
                    size * a - size * b == k - j,
                    0 < k - j < size,
            ;
        }
    }
}

/// The element of the used ring that is `j` places after `idx` holds the head that the entry of the
/// available ring names that is `j` places after the position of the queue.
pub open spec fn holds_head(
    queue: LegacyQueue,
    idx: u16,
    before: RamView,
    after: RamView,
    j: int,
) -> bool {
    let entry = before.load_u16(avail_entry(queue, slot(queue, queue.last_avail_idx, j)));
    entry is Some && used_head(queue, slot(queue, idx, j), after) == entry.unwrap()
}

/// A notification that serves the queue to its end, and no more requests than the queue has
/// descriptors, fills one slot of the used ring after the other with the heads that the
/// entries of the available ring name, one after the other, and moves the used index on by their
/// number, in a queue whose size divides the range of its indices.
pub proof fn used_slots_hold_available_heads(
    queue: LegacyQueue,
    disk: Seq<u8>,
    ram: RamView,
    left: nat,
)
    requires
        queue.wf(),
        ram.coherent(),
        all_keep_off_queue(queue, disk, ram, left),
        model::served(queue, disk, ram, left, 0).outcome is Complete,
        0x1_0000int % queue.size as int == 0,
        0 < model::served(queue, disk, ram, left, 0).count <= queue.size,
    ensures
        ({
            let s = model::served(queue, disk, ram, left, 0);
            let idx = used_index(queue, ram).unwrap();
            &&& used_index(queue, ram) is Some
            &&& used_index(queue, s.ram) == Some(((idx + s.count) % 0x1_0000) as u16)
            &&& forall|j: int|
                0 <= j < s.count ==> #[trigger] holds_head(queue, idx, ram, s.ram, j)
        }),
{
    queue_is_answered_in_order(queue, disk, ram, left, 0);
    let s = model::served(queue, disk, ram, left, 0);
    let n = s.count as int;
    assert(answered_in_order(queue, ram, s.ram, n));
    let idx = used_index(queue, ram).unwrap();
    assert forall|j: int| 0 <= j < n implies #[trigger] holds_head(queue, idx, ram, s.ram, j) by {
        assert(answers_entry(queue, idx, ram, s.ram, n, j));
        elements_take_different_slots(queue, idx, j, n);
    }
}

/// Taking a number modulo a multiple of the size first does not change what it is modulo the size.
proof fn whole_turns_keep_the_slot(x: int, size: int)
    requires
        0 < size,
        0x1_0000int % size == 0,
        0 <= x,
    ensures
        x % 0x1_0000 % size == x % size,
{
    let turns = 0x1_0000int / size;
    vstd::arithmetic::div_mod::lemma_fundamental_div_mod(0x1_0000, size);
    assert(0x1_0000int == size * turns);
    assert(turns > 0) by (nonlinear_arith)
        requires
            0x1_0000int == size * turns,
            size > 0,
    ;
    vstd::arithmetic::div_mod::lemma_mod_mod(x, size, turns);
}

/// An entry of the available ring reads the same where the bytes before the used ring are the same.
proof fn avail_entries_stay(queue: LegacyQueue, ram: RamView, mid: RamView, slot: int)
    requires
        ram.coherent(),
        same_mapping(ram, mid),
        0 <= slot < queue.size,
        forall|a: int|
            in_queue(queue, a) && a < queue.used_ring() ==> #[trigger] same_byte(ram, mid, a),
    ensures
        mid.load_u16(avail_entry(queue, slot)) == ram.load_u16(avail_entry(queue, slot)),
{
    let at = avail_entry(queue, slot);
    assert(queue.used_ring() >= queue.avail_ring() + 4 + queue.size * 2);
    if ram.bytes.contains_key(at) && at + 2 <= ram.areas[at].1 {
        assert(ram.bytes.contains_key(at + 1));
        assert(same_byte(ram, mid, at));
        assert(same_byte(ram, mid, at + 1));
        assert(mid.at(at, 2) =~= ram.at(at, 2));
    }
}


} // verus!
