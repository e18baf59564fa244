//! What the guest hands to the block device of the host: the page of its queue, and the
//! descriptors of its newest request.

use vstd::prelude::*;

use crate::bus::{AccessWidth, Port};
use crate::bytes;
use crate::error::VmError;
use crate::guest_memory::RamView;
use crate::virtio_blk::order;
use crate::virtio_blk::queue::{Descriptor, LegacyQueue};
use crate::virtio_blk::reading;
use crate::vm::ovmf_blk;
use crate::vm::ovmf_blk::{HostWrite, OvmfVirtioBlkIoState, QueueSnapshot};

verus! {

/// Where the descriptor with an index lies, in a queue that starts at a page.
pub open spec fn entry_of(pfn: u32, t: int) -> int {
    4096 * pfn + 16 * t
}

/// The address lies in the descriptor with an index.
pub open spec fn in_entry(pfn: u32, t: int, a: int) -> bool {
    entry_of(pfn, t) <= a < entry_of(pfn, t) + 16
}

/// The address in the descriptor that lies at `at` has been replaced by the one in the host, where
/// there is one, and the rest of the descriptor is as it was.
pub open spec fn has_host_address(before: RamView, after: RamView, at: int) -> bool {
    let addr = reading::number_at(before, at, 8);
    &&& before.bytes.contains_key(addr) && 0 <= before.host[addr] <= u64::MAX
        ==> reading::number_at(after, at, 8) == before.host[addr]
    &&& !before.bytes.contains_key(addr) ==> reading::number_at(after, at, 8) == addr
    &&& forall|k: int| 8 <= k < 16 ==> #[trigger] after.bytes[at + k] == before.bytes[at + k]
}

/// The indices are those of a chain of descriptors: each is one of the queue and occurs once, its
/// descriptor can be read, and each but the last one says that the next one follows.
pub open spec fn linked(pfn: u32, size: u16, c: Seq<u16>, ram: RamView) -> bool {
    &&& c.len() >= 1
    &&& forall|i: int|
        0 <= i < c.len() ==> (#[trigger] c[i]) < size && ram.spans(entry_of(pfn, c[i] as int), 16)
    &&& forall|i: int, j: int| 0 <= i < j < c.len() ==> (#[trigger] c[i]) != (#[trigger] c[j])
    &&& forall|i: int|
        #![trigger c[i]]
        0 <= i < c.len() - 1 ==> reading::number_at(ram, entry_of(pfn, c[i] as int) + 12, 2) % 2
            == 1 && reading::number_at(ram, entry_of(pfn, c[i] as int) + 14, 2) == c[i + 1]
}

/// The chain ends where its last descriptor says so, or names one that the queue does not have.
pub open spec fn ends(pfn: u32, size: u16, last: u16, ram: RamView) -> bool {
    reading::number_at(ram, entry_of(pfn, last as int) + 12, 2) % 2 == 0 || reading::number_at(
        ram,
        entry_of(pfn, last as int) + 14,
        2,
    ) >= size
}

/// The address lies in none of the descriptors with the indices.
pub open spec fn in_no_entry(pfn: u32, c: Seq<u16>, a: int) -> bool {
    forall|i: int| 0 <= i < c.len() ==> !in_entry(pfn, (#[trigger] c[i]) as int, a)
}

/// A number of eight bytes depends on these bytes alone.
proof fn same_bytes_same_number(before: RamView, after: RamView, a: int, n: nat)
    requires
        forall|b: int| a <= b < a + n ==> #[trigger] after.bytes[b] == before.bytes[b],
    ensures
        reading::number_at(after, a, n) == reading::number_at(before, a, n),
    decreases n,
{
    if n > 0 {
        assert(after.bytes[a] == before.bytes[a]);
        same_bytes_same_number(before, after, a + 1, (n - 1) as nat);
    }
}

/// What the fields of a descriptor are that was read in one go.
proof fn decoded_fields(ram: RamView, at: int)
    ensures
        ({
            let d = Descriptor::decoded(ram.at(at, 16));
            &&& d.addr == reading::number_at(ram, at, 8)
            &&& d.flags == reading::number_at(ram, at + 12, 2)
            &&& d.next == reading::number_at(ram, at + 14, 2)
            &&& d.has_next() <==> d.flags % 2 == 1
        }),
{
    reading::u64_is_number(ram, at, 16, 0);
    reveal_with_fuel(reading::number_at, 3);
    let raw = ram.at(at, 16);
    assert(raw[12] == ram.bytes[at + 12] && raw[13] == ram.bytes[at + 13] && raw[14]
        == ram.bytes[at + 14] && raw[15] == ram.bytes[at + 15]);
    reading::flags_are_bits(Descriptor::decoded(raw));
}

/// Replacing the address of one descriptor works, gives it the address of the host, and changes
/// nothing outside it.
proof fn one_entry_is_readdressed(ram: RamView, at: int)
    requires
        ram.spans(at, 16),
    ensures
        ({
            let (after, ok) = ovmf_blk::readdressed(ram.at(at, 16), at, ram);
            &&& ok
            &&& order::same_mapping(ram, after)
            &&& has_host_address(ram, after, at)
            &&& forall|a: int|
                !(at <= a < at + 16) ==> #[trigger] order::same_byte(ram, after, a)
        }),
{
    let raw = ram.at(at, 16);
    let (after, ok) = ovmf_blk::readdressed(raw, at, ram);
    decoded_fields(ram, at);
    let addr = Descriptor::decoded(raw).addr as int;
    if let Some(hpa) = ram.translation(addr) {
        let out = ovmf_blk::with_address(raw, hpa as u64);
        ovmf_blk::readdressing_keeps_the_rest(raw, hpa as u64);
        assert(after.bytes.dom() =~= ram.bytes.dom());
        assert forall|k: int| 0 <= k < 16 implies #[trigger] after.bytes[at + k] == out[k] by {
            assert(ram.bytes.contains_key(at + k));
        }
        assert forall|k: int| 8 <= k < 16 implies #[trigger] after.bytes[at + k] == ram.bytes[at
            + k] by {
            assert(out[k] == raw[k]);
        }
        assert(after.at(at, 16) =~= out);
        reading::u64_is_number(after, at, 16, 0);
    }
}

/// The descriptor at `e` is the same in both memories.
spec fn same_entry(before: RamView, after: RamView, e: int) -> bool {
    &&& forall|b: int| e <= b < e + 16 ==> #[trigger] after.bytes[b] == before.bytes[b]
    &&& reading::number_at(after, e, 8) == reading::number_at(before, e, 8)
    &&& reading::number_at(after, e + 12, 2) == reading::number_at(before, e + 12, 2)
    &&& reading::number_at(after, e + 14, 2) == reading::number_at(before, e + 14, 2)
}

/// Memory has changed in the descriptor at `at` at most, and is mapped as before.
spec fn changed_at(before: RamView, after: RamView, at: int) -> bool {
    &&& order::same_mapping(before, after)
    &&& forall|a: int| !(at <= a < at + 16) ==> #[trigger] order::same_byte(before, after, a)
}

/// A change of one descriptor leaves another one as it is.
proof fn other_entry_stays(pfn: u32, t: u16, u: u16, before: RamView, after: RamView)
    requires
        t != u,
        before.spans(entry_of(pfn, u as int), 16),
        changed_at(before, after, entry_of(pfn, t as int)),
    ensures
        same_entry(before, after, entry_of(pfn, u as int)),
        after.spans(entry_of(pfn, u as int), 16),
{
    let at = entry_of(pfn, t as int);
    let e = entry_of(pfn, u as int);
    assert(after.bytes.contains_key(e));
    assert forall|b: int| e <= b < e + 16 implies #[trigger] after.bytes[b] == before.bytes[b]
        && after.bytes.contains_key(b) by {
        assert(before.bytes.contains_key(b));
        assert(order::same_byte(before, after, b));
    }
    assert forall|b: int| e <= b < e + 16 implies #[trigger] after.bytes.contains_key(b) by {
        assert(after.bytes[b] == before.bytes[b]);
    }
    same_bytes_same_number(before, after, e, 8);
    same_bytes_same_number(before, after, e + 12, 2);
    same_bytes_same_number(before, after, e + 14, 2);
}

/// The rest of a chain is still linked after its first descriptor has changed.
proof fn rest_stays_linked(pfn: u32, size: u16, c: Seq<u16>, before: RamView, after: RamView)
    requires
        linked(pfn, size, c, before),
        c.len() >= 2,
        changed_at(before, after, entry_of(pfn, c[0] as int)),
    ensures
        linked(pfn, size, c.skip(1), after),
        ends(pfn, size, c.last(), before) == ends(pfn, size, c.last(), after),
        forall|i: int|
            1 <= i < c.len() ==> same_entry(before, after, entry_of(pfn, (#[trigger] c[i]) as int)),
{
    let rest = c.skip(1);
    assert forall|i: int| 1 <= i < c.len() implies same_entry(
        before,
        after,
        entry_of(pfn, (#[trigger] c[i]) as int),
    ) && after.spans(entry_of(pfn, c[i] as int), 16) by {
        assert(c[0] != c[i]);
        other_entry_stays(pfn, c[0], c[i], before, after);
    }
    assert(c.last() == c[c.len() - 1]);
    assert forall|i: int| 0 <= i < rest.len() implies (#[trigger] rest[i]) < size && after.spans(
        entry_of(pfn, rest[i] as int),
        16,
    ) by {
        assert(rest[i] == c[i + 1]);
    }
    assert forall|i: int, j: int| 0 <= i < j < rest.len() implies (#[trigger] rest[i]) != (
    #[trigger] rest[j]) by {
        assert(c[i + 1] != c[j + 1]);
    }
    assert forall|i: int|
        #![trigger rest[i]]
        0 <= i < rest.len() - 1 implies reading::number_at(
        after,
        entry_of(pfn, rest[i] as int) + 12,
        2,
    ) % 2 == 1 && reading::number_at(after, entry_of(pfn, rest[i] as int) + 14, 2) == rest[i + 1] by {
        assert(rest[i] == c[i + 1] && rest[i + 1] == c[i + 2]);
        assert(same_entry(before, after, entry_of(pfn, c[i + 1] as int)));
    }
}

/// Every descriptor of the chain has the address of the host, and nothing else has changed.
pub open spec fn readdressed_chain(
    pfn: u32,
    c: Seq<u16>,
    before: RamView,
    after: RamView,
) -> bool {
    &&& order::same_mapping(before, after)
    &&& forall|i: int|
        0 <= i < c.len() ==> has_host_address(
            before,
            after,
            entry_of(pfn, (#[trigger] c[i]) as int),
        )
    &&& forall|a: int| in_no_entry(pfn, c, a) ==> #[trigger] order::same_byte(before, after, a)
}

/// Giving the first descriptor of a chain the address of the host, and then the others, does so for
/// the whole chain.
proof fn readdressing_adds_up(
    pfn: u32,
    size: u16,
    c: Seq<u16>,
    ram: RamView,
    mid: RamView,
    after: RamView,
)
    requires
        linked(pfn, size, c, ram),
        c.len() >= 2,
        changed_at(ram, mid, entry_of(pfn, c[0] as int)),
        has_host_address(ram, mid, entry_of(pfn, c[0] as int)),
        readdressed_chain(pfn, c.skip(1), mid, after),
    ensures
        readdressed_chain(pfn, c, ram, after),
{
    let rest = c.skip(1);
    rest_stays_linked(pfn, size, c, ram, mid);
    assert forall|i: int| 0 <= i < c.len() implies has_host_address(
        ram,
        after,
        entry_of(pfn, (#[trigger] c[i]) as int),
    ) by {
        let e = entry_of(pfn, c[i] as int);
        if i == 0 {
            assert forall|b: int| e <= b < e + 16 implies #[trigger] after.bytes[b] == mid.bytes[b] by {
                assert(in_no_entry(pfn, rest, b)) by {
                    assert forall|j: int| 0 <= j < rest.len() implies !in_entry(
                        pfn,
                        (#[trigger] rest[j]) as int,
                        b,
                    ) by {
                        assert(rest[j] == c[j + 1]);
                        assert(c[0] != c[j + 1]);
                    }
                }
                assert(ram.spans(e, 16));
                assert(ram.bytes.contains_key(b));
                assert(mid.bytes.contains_key(b));
                assert(order::same_byte(mid, after, b));
            }
            same_bytes_same_number(mid, after, e, 8);
        } else {
            assert(rest[i - 1] == c[i]);
            assert(has_host_address(mid, after, e));
            assert(same_entry(ram, mid, e));
            let addr = reading::number_at(ram, e, 8);
            assert(mid.bytes.contains_key(addr) == ram.bytes.contains_key(addr));
            assert forall|k: int| 8 <= k < 16 implies #[trigger] after.bytes[e + k] == ram.bytes[e
                + k] by {
                assert(mid.bytes[e + k] == ram.bytes[e + k]);
            }
        }
    }
    assert forall|a: int| in_no_entry(pfn, c, a) implies #[trigger] order::same_byte(
        ram,
        after,
        a,
    ) by {
        assert(!in_entry(pfn, c[0] as int, a));
        assert(in_no_entry(pfn, rest, a)) by {
            assert forall|j: int| 0 <= j < rest.len() implies !in_entry(
                pfn,
                (#[trigger] rest[j]) as int,
                a,
            ) by {
                assert(rest[j] == c[j + 1]);
            }
        }
        assert(order::same_byte(ram, mid, a) && order::same_byte(mid, after, a));
        if ram.bytes.contains_key(a) {
            assert(mid.bytes.contains_key(a));
        }
    }
}

/// Following a chain gives each of its descriptors the address of the host, and changes nothing
/// else.
proof fn chain_is_readdressed(queue: LegacyQueue, c: Seq<u16>, left: nat, ram: RamView)
    requires
        linked(queue.pfn, queue.size, c, ram),
        c.len() <= left,
        c.len() == left || ends(queue.pfn, queue.size, c.last(), ram),
    ensures
        ovmf_blk::walked(queue, c[0], left, ram).1,
        readdressed_chain(queue.pfn, c, ram, ovmf_blk::walked(queue, c[0], left, ram).0),
    decreases left,
{
    let pfn = queue.pfn;
    let at = entry_of(pfn, c[0] as int);
    let (after, ok) = ovmf_blk::walked(queue, c[0], left, ram);
    assert(queue.table() + c[0] * 16 == at);
    assert(ram.load_span(at, 16) == Some(ram.at(at, 16)));
    let raw = ram.at(at, 16);
    let d = Descriptor::decoded(raw);
    let (mid, ok1) = ovmf_blk::readdressed(raw, at, ram);
    one_entry_is_readdressed(ram, at);
    decoded_fields(ram, at);
    if c.len() == 1 {
        assert(c.last() == c[0]);
        assert(after == mid && ok) by {
            if d.has_next() {
                if left > 1 {
                    assert(d.next >= queue.size);
                }
                reveal_with_fuel(ovmf_blk::walked, 2);
            }
        }
        assert forall|a: int| in_no_entry(pfn, c, a) implies #[trigger] order::same_byte(
            ram,
            after,
            a,
        ) by {
            assert(!in_entry(pfn, c[0] as int, a));
        }
    } else {
        let rest = c.skip(1);
        assert(d.has_next() && d.next == c[1]);
        rest_stays_linked(pfn, queue.size, c, ram, mid);
        assert(rest.last() == c.last() && rest[0] == c[1]);
        chain_is_readdressed(queue, rest, (left - 1) as nat, mid);
        assert((after, ok) == ovmf_blk::walked(queue, rest[0], (left - 1) as nat, mid));
        readdressing_adds_up(pfn, queue.size, c, ram, mid, after);
    }
}

/// The queue as it stands before the driver's newest request is taken: its position is the one
/// right before the available index.
pub open spec fn before_newest(pfn: u32, size: u16, ram: RamView) -> LegacyQueue {
    let n = reading::number_at(ram, 4096 * pfn + 16 * size + 2, 2);
    LegacyQueue {
        size,
        pfn,
        last_avail_idx: if n == 0 {
            0xffff
        } else {
            (n - 1) as u16
        },
    }
}

/// How many descriptors of a chain are followed: those of the queue, but at most eight.
pub open spec fn followed(size: u16) -> nat {
    if size < 8 {
        size as nat
    } else {
        8
    }
}

/// A notification gives the descriptors of the newest request the addresses of the host. The head
/// of its chain is the one that stands in the entry of the available ring that a device takes last:
/// the entry at the position right before the available index. Every descriptor of the chain whose
/// address is mapped holds the host address afterwards, the others keep theirs, and nothing else
/// in memory changes.
pub proof fn newest_request_gets_host_addresses(
    s: OvmfVirtioBlkIoState,
    value: int,
    ram: RamView,
    c: Seq<u16>,
    a: int,
)
    requires
        s.queue_pfn != 0,
        s.queue_size != 0,
        ram.spans(4096 * s.queue_pfn + 16 * s.queue_size, 6),
        ({
            let q = before_newest(s.queue_pfn, s.queue_size, ram);
            &&& ram.spans(reading::entry_at(q), 2)
            &&& linked(s.queue_pfn, s.queue_size, c, ram)
            &&& c[0] == reading::number_at(ram, reading::entry_at(q), 2)
        }),
        c.len() <= followed(s.queue_size),
        c.len() == followed(s.queue_size) || ends(s.queue_pfn, s.queue_size, c.last(), ram),
    ensures
        ({
            let after = ovmf_blk::blk_written(s, Port(0x6010), AccessWidth::Word, value, ram).ram;
            &&& forall|i: int|
                0 <= i < c.len() ==> has_host_address(
                    ram,
                    after,
                    entry_of(s.queue_pfn, (#[trigger] c[i]) as int),
                )
            &&& in_no_entry(s.queue_pfn, c, a) && ram.bytes.contains_key(a) ==> after.bytes[a]
                == ram.bytes[a]
            &&& order::same_mapping(ram, after)
            &&& s.rewritten(ram).1
            &&& ram.spans(s.queue().used_ring(), 4) ==> ovmf_blk::blk_written(
                s,
                Port(0x6010),
                AccessWidth::Word,
                value,
                ram,
            ).result is Ok
        }),
{
    let q = before_newest(s.queue_pfn, s.queue_size, ram);
    let ring = 4096 * s.queue_pfn + 16 * s.queue_size;
    assert(s.queue().avail_ring() == ring);
    let avail = ram.at(ring, 6);
    assert(ram.load_span(ring, 6) == Some(avail));
    let n = reading::number_at(ram, ring + 2, 2);
    assert(bytes::le_u16_at(avail, 2) == n && 0 <= n < 0x1_0000) by {
        reveal_with_fuel(reading::number_at, 3);
        assert(avail[2] == ram.bytes[ring + 2] && avail[3] == ram.bytes[ring + 3]);
    }
    let last = (bytes::le_u16_at(avail, 2) - 1) % 0x1_0000;
    assert(last == q.last_avail_idx);
    let slot = last % s.queue_size as int;
    let at = reading::entry_at(q);
    assert(at == ring + 4 + slot * 2);
    let head = ram.at(at, 2);
    assert(ram.load_span(at, 2) == Some(head));
    assert(bytes::le_u16_at(head, 0) == reading::number_at(ram, at, 2)) by {
        reveal_with_fuel(reading::number_at, 3);
        assert(head[0] == ram.bytes[at] && head[1] == ram.bytes[at + 1]);
    }
    assert(s.chain_limit() == followed(s.queue_size));
    chain_is_readdressed(s.queue(), c, followed(s.queue_size), ram);
    assert(s.rewritten(ram) == ovmf_blk::walked(s.queue(), c[0], followed(s.queue_size), ram));
    let after = s.rewritten(ram).0;
    assert(order::same_byte(ram, after, a) || !in_no_entry(s.queue_pfn, c, a));
    snapshot_shows_the_rings(s, after);
    assert(after.spans(ring, 6)) by {
        assert(after.bytes.contains_key(ring));
        assert forall|b: int| ring <= b < ring + 6 implies #[trigger] after.bytes.contains_key(b) by {
            assert(ram.bytes.contains_key(b));
        }
    }
    let used = s.queue().used_ring();
    if ram.spans(used, 4) {
        assert(after.spans(used, 4)) by {
            assert(after.bytes.contains_key(used));
            assert forall|b: int| used <= b < used + 4 implies #[trigger] after.bytes.contains_key(
                b,
            ) by {
                assert(ram.bytes.contains_key(b));
            }
        }
    }
}

/// A notification of a queue that is not set up goes out as it is, and touches no memory.
pub proof fn notification_without_queue_goes_out(
    s: OvmfVirtioBlkIoState,
    value: int,
    ram: RamView,
)
    requires
        s.queue_pfn == 0 || s.queue_size == 0,
        0 <= value,
    ensures
        ({
            let w = ovmf_blk::blk_written(s, Port(0x6010), AccessWidth::Word, value, ram);
            &&& w.ram == ram
            &&& w.state == s
            &&& w.result matches Ok(Some(out)) && out.value == value % 0x1_0000 && out.snapshot
                is None
        }),
{
}

/// The page of the queue that goes out to the host is the one behind the page that the guest has
/// set, where that page is mapped, and then the guest's page is kept for later; otherwise it goes
/// out as it is, and nothing is kept.
pub proof fn page_of_queue_is_translated(s: OvmfVirtioBlkIoState, value: int, ram: RamView)
    requires
        0 <= value,
    ensures
        ({
            let w = ovmf_blk::blk_written(s, Port(0x6008), AccessWidth::Dword, value, ram);
            let pfn = value % 0x1_0000_0000;
            let gpa = 4096 * pfn;
            &&& w.ram == ram
            &&& w.state.queue_size == s.queue_size
            &&& w.result matches Ok(Some(out)) && {
                &&& out.snapshot is None
                &&& ram.bytes.contains_key(gpa) && 0 <= ram.host[gpa] < 0x1000_0000_0000 ==> {
                    &&& 4096 * out.value <= ram.host[gpa] < 4096 * out.value + 4096
                    &&& w.state.queue_pfn == pfn
                    &&& w.state.translated_queue_pfn == out.value
                }
                &&& ram.bytes.contains_key(gpa) && 0 <= ram.host[gpa] ==> out.value
                    == ram.host[gpa] / 4096 % 0x1_0000_0000
                &&& !ram.bytes.contains_key(gpa) ==> out.value == pfn && w.state == s
            }
        }),
{
}

/// What is written to the other ports of the device, and what notifies it, goes out in the width
/// in which it was written; eight bytes at once are refused. No other write changes what is known
/// of the queue, and no write but a notification changes memory.
pub proof fn other_writes_go_out_as_they_are(
    s: OvmfVirtioBlkIoState,
    port: Port,
    width: AccessWidth,
    value: int,
    ram: RamView,
)
    requires
        0 <= value,
        0x6000 <= port.0 < 0x6080,
        !(port.0 == 0x6008 && width == AccessWidth::Dword),
    ensures
        ({
            let w = ovmf_blk::blk_written(s, port, width, value, ram);
            let notifies = port.0 == 0x6010 && width == AccessWidth::Word;
            &&& w.state == s
            &&& !notifies ==> w.ram == ram
            &&& width == AccessWidth::Qword ==> w.result == Err::<Option<HostWrite>, VmError>(
                VmError::InvalidInput,
            )
            &&& width != AccessWidth::Qword && !notifies ==> w.result is Ok
            &&& w.result matches Ok(out) ==> out is Some && {
                let sent = out.unwrap();
                &&& !notifies ==> sent.snapshot is None
                &&& width == AccessWidth::Byte ==> sent.value == value % 0x100
                &&& width == AccessWidth::Word ==> sent.value == value % 0x1_0000
                &&& width == AccessWidth::Dword ==> sent.value == value % 0x1_0000_0000
            }
        }),
{
}

/// What is noted before a notification is what the rings hold: the flags, the index and the first
/// entry of the available ring, and the flags and the index of the used ring.
pub proof fn snapshot_shows_the_rings(s: OvmfVirtioBlkIoState, ram: RamView)
    ensures
        s.queue_pfn == 0 || s.queue_size == 0 ==> s.snapshot(ram) == Ok::<
            Option<QueueSnapshot>,
            VmError,
        >(None),
        s.snapshot(ram) matches Ok(Some(shown)) ==> {
            let avail = 4096 * s.queue_pfn + 16 * s.queue_size;
            let used = s.queue().used_ring();
            &&& shown.avail_flags == reading::number_at(ram, avail, 2)
            &&& shown.avail_idx == reading::number_at(ram, avail + 2, 2)
            &&& shown.avail_head == reading::number_at(ram, avail + 4, 2)
            &&& shown.used_flags == reading::number_at(ram, used, 2)
            &&& shown.used_idx == reading::number_at(ram, used + 2, 2)
        },
        s.queue_pfn != 0 && s.queue_size != 0 && ram.spans(
            4096 * s.queue_pfn + 16 * s.queue_size,
            6,
        ) && ram.spans(s.queue().used_ring(), 4) ==> s.snapshot(ram) matches Ok(Some(shown)),
{
    let avail = 4096 * s.queue_pfn + 16 * s.queue_size;
    let used = s.queue().used_ring();
    assert(s.queue().avail_ring() == avail);
    reveal_with_fuel(reading::number_at, 3);
    let x = ram.at(avail, 6);
    let y = ram.at(used, 4);
    assert(x[0] == ram.bytes[avail] && x[1] == ram.bytes[avail + 1] && x[2] == ram.bytes[avail + 2]
        && x[3] == ram.bytes[avail + 3] && x[4] == ram.bytes[avail + 4] && x[5] == ram.bytes[avail
        + 5]);
    assert(y[0] == ram.bytes[used] && y[1] == ram.bytes[used + 1] && y[2] == ram.bytes[used + 2]
        && y[3] == ram.bytes[used + 3]);
}

/// A notification whose available ring, newest entry or first descriptor cannot be read is refused,
/// and one whose newest entry names no descriptor of the queue readdresses nothing. Either way no
/// memory changes.
pub proof fn unreadable_request_is_left_alone(s: OvmfVirtioBlkIoState, value: int, ram: RamView)
    requires
        s.queue_pfn != 0,
        s.queue_size != 0,
    ensures
        ({
            let w = ovmf_blk::blk_written(s, Port(0x6010), AccessWidth::Word, value, ram);
            let refused = w.result == Err::<Option<HostWrite>, VmError>(VmError::InvalidInput);
            let ring = ram.spans(4096 * s.queue_pfn + 16 * s.queue_size, 6);
            let at = reading::entry_at(before_newest(s.queue_pfn, s.queue_size, ram));
            let head = reading::number_at(ram, at, 2);
            &&& !ring || !ram.spans(at, 2) ==> refused && w.ram == ram
            &&& ring && ram.spans(at, 2) && head >= s.queue_size ==> w.ram == ram && (ram.spans(
                s.queue().used_ring(),
                4,
            ) ==> w.result is Ok)
            &&& ring && ram.spans(at, 2) && head < s.queue_size && !ram.spans(
                entry_of(s.queue_pfn, head),
                16,
            ) ==> refused && w.ram == ram
        }),
{
    let q = before_newest(s.queue_pfn, s.queue_size, ram);
    let ring = 4096 * s.queue_pfn + 16 * s.queue_size;
    assert(s.queue().avail_ring() == ring);
    if ram.spans(ring, 6) {
        let avail = ram.at(ring, 6);
        assert(ram.load_span(ring, 6) == Some(avail));
        let n = reading::number_at(ram, ring + 2, 2);
        assert(bytes::le_u16_at(avail, 2) == n && 0 <= n < 0x1_0000) by {
            reveal_with_fuel(reading::number_at, 3);
            assert(avail[2] == ram.bytes[ring + 2] && avail[3] == ram.bytes[ring + 3]);
        }
        let last = (bytes::le_u16_at(avail, 2) - 1) % 0x1_0000;
        assert(last == q.last_avail_idx);
        let slot = last % s.queue_size as int;
        let at = reading::entry_at(q);
        assert(at == ring + 4 + slot * 2);
        if ram.spans(at, 2) {
            let head = ram.at(at, 2);
            assert(ram.load_span(at, 2) == Some(head));
            assert(bytes::le_u16_at(head, 0) == reading::number_at(ram, at, 2)) by {
                reveal_with_fuel(reading::number_at, 3);
                assert(head[0] == ram.bytes[at] && head[1] == ram.bytes[at + 1]);
            }
            assert(s.queue().table() + bytes::le_u16_at(head, 0) * 16 == entry_of(
                s.queue_pfn,
                bytes::le_u16_at(head, 0) as int,
            ));
        }
    }
}

} // verus!
