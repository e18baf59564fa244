//! What requests to the block device do, byte by byte, and which of them are answered how.

use vstd::prelude::*;

use crate::bytes;
use crate::guest_memory;
use crate::guest_memory::RamView;
use crate::virtio_blk::disk;
use crate::virtio_blk::laws;
use crate::virtio_blk::model;
use crate::virtio_blk::order;
use crate::virtio_blk::queue::Descriptor;
use crate::virtio_blk::request::{RequestCompletion, RequestView};

verus! {

/// How many bytes of data come before the buffer at index `j`.
pub open spec fn bytes_before(data: Seq<Descriptor>, j: int) -> int
    decreases j,
{
    if j <= 0 {
        0
    } else {
        bytes_before(data, j - 1) + data[j - 1].len
    }
}

/// Every byte of the buffer is mapped.
pub open spec fn reachable(d: Descriptor, ram: RamView) -> bool {
    forall|a: int| d.addr <= a < d.addr + d.len ==> #[trigger] ram.bytes.contains_key(a)
}

/// Every byte of every buffer is mapped.
pub open spec fn all_reachable(data: Seq<Descriptor>, ram: RamView) -> bool {
    forall|j: int| 0 <= j < data.len() ==> reachable(#[trigger] data[j], ram)
}

/// The device may write every buffer.
pub open spec fn all_writable(data: Seq<Descriptor>) -> bool {
    forall|j: int| 0 <= j < data.len() ==> (#[trigger] data[j]).flags & 2 == 2
}

/// The device may write none of the buffers.
pub open spec fn all_readable(data: Seq<Descriptor>) -> bool {
    forall|j: int| 0 <= j < data.len() ==> (#[trigger] data[j]).flags & 2 == 0
}

/// The buffers from index `i` to index `j` can be transferred: they are mapped, and on the disk
/// they stay within `room` bytes when the first of all buffers starts at `base`.
pub open spec fn transferable(
    data: Seq<Descriptor>,
    i: int,
    j: int,
    base: int,
    room: int,
    ram: RamView,
) -> bool {
    &&& forall|m: int| i <= m <= j ==> reachable(#[trigger] data[m], ram)
    &&& base + bytes_before(data, j + 1) <= room
}

/// Byte `k` of the buffer at index `j` lies at its place on the disk.
pub open spec fn landed(
    disk: Seq<u8>,
    data: Seq<Descriptor>,
    base: int,
    ram: RamView,
    j: int,
    k: int,
) -> bool {
    disk[base + bytes_before(data, j) + k] == ram.bytes[data[j].addr + k]
}

/// The place `p` of the disk is that of some byte of the buffer at index `j`.
pub open spec fn on_disk(data: Seq<Descriptor>, base: int, j: int, p: int) -> bool {
    base + bytes_before(data, j) <= p < base + bytes_before(data, j + 1)
}

/// More buffers are not fewer bytes.
pub proof fn bytes_before_grow(data: Seq<Descriptor>, i: int, j: int)
    requires
        i <= j,
    ensures
        0 <= bytes_before(data, i) <= bytes_before(data, j),
    decreases j,
{
    if j > 0 {
        if i < j {
            bytes_before_grow(data, i, j - 1);
        } else {
            bytes_before_grow(data, j - 1, j - 1);
        }
    }
}

/// A transfer to the disk that stops at the buffer at index `j` because that buffer is not mapped.
pub open spec fn stops_unmapped(
    data: Seq<Descriptor>,
    i: int,
    j: int,
    base: int,
    room: int,
    ram: RamView,
) -> bool {
    &&& i <= j < data.len()
    &&& !reachable(data[j], ram)
    &&& transferable(data, i, j - 1, base, room, ram)
}

/// A transfer to the disk that stops at the buffer at index `j` because that buffer, which is
/// mapped, reaches past the end of the disk.
pub open spec fn stops_at_end(
    data: Seq<Descriptor>,
    i: int,
    j: int,
    base: int,
    room: int,
    ram: RamView,
) -> bool {
    &&& i <= j < data.len()
    &&& reachable(data[j], ram)
    &&& base + bytes_before(data, j + 1) > room
    &&& transferable(data, i, j - 1, base, room, ram)
}

/// A transfer to the disk puts every buffer onto the disk that can be transferred together with
/// all buffers before it, each byte at its place, and leaves the rest of the disk alone. It is
/// done exactly where that holds of all buffers, and otherwise stops at the first buffer that is
/// not mapped or reaches past the end of the disk.
pub proof fn disk_takes_buffers(
    disk: Seq<u8>,
    data: Seq<Descriptor>,
    i: nat,
    base: int,
    ram: RamView,
)
    requires
        0 <= base,
        i <= data.len(),
        base + bytes_before(data, i as int) <= disk.len(),
    ensures
        ({
            let t = model::copied_to_disk(disk, data, i, base + bytes_before(data, i as int), ram);
            let len = data.len() as int;
            let room = disk.len() as int;
            &&& t.0.len() == disk.len()
            &&& t.1 is Done <==> transferable(data, i as int, len - 1, base, room, ram)
            &&& t.1 is Fault ==> exists|j: int|
                #[trigger] stops_unmapped(data, i as int, j, base, room, ram)
            &&& t.1 is OutOfRange ==> exists|j: int|
                #[trigger] stops_at_end(data, i as int, j, base, room, ram)
            &&& forall|j: int, k: int|
                i <= j < len && transferable(data, i as int, j, base, room, ram) && 0 <= k
                    < data[j].len ==> #[trigger] landed(t.0, data, base, ram, j, k)
            &&& forall|p: int|
                0 <= p < room && (forall|j: int|
                    i <= j < len && transferable(data, i as int, j, base, room, ram)
                        ==> !#[trigger] on_disk(data, base, j, p)) ==> #[trigger] t.0[p] == disk[p]
        }),
    decreases data.len() - i,
{
    let at = base + bytes_before(data, i as int);
    let len = data.len() as int;
    let room = disk.len() as int;
    let i0 = i as int;
    let t = model::copied_to_disk(disk, data, i, at, ram);
    if i < data.len() {
        let d = data[i0];
        bytes_before_grow(data, i0, i0);
        bytes_before_grow(data, i0 + 1, len);
        assert(bytes_before(data, i0 + 1) == bytes_before(data, i0) + d.len);
        assert(reachable(d, ram) <==> ram.mapped(d.addr as int, d.len as int));
        if !reachable(d, ram) {
            assert(t.1 is Fault);
            assert(stops_unmapped(data, i0, i0, base, room, ram));
        } else if at + d.len > room {
            assert(t.1 is OutOfRange);
            assert(stops_at_end(data, i0, i0, base, room, ram));
            assert forall|j: int| i0 <= j < len implies !(#[trigger] transferable(
                data,
                i0,
                j,
                base,
                room,
                ram,
            )) by {
                bytes_before_grow(data, i0 + 1, j + 1);
            }
        } else {
            let raw = ram.at(d.addr as int, d.len as nat);
            let next = disk::overwritten(disk, at, raw);
            disk::read_back_after_write(disk, at, raw);
            disk_takes_buffers(next, data, i + 1, base, ram);
            assert(t == model::copied_to_disk(next, data, i + 1, at + d.len, ram));
            assert forall|j: int| i0 < j < len implies #[trigger] transferable(
                data,
                i0,
                j,
                base,
                room,
                ram,
            ) == transferable(data, i0 + 1, j, base, room, ram) by {
                if transferable(data, i0 + 1, j, base, room, ram) {
                    assert forall|m: int| i0 <= m <= j implies reachable(#[trigger] data[m], ram) by {
                        if m > i0 {
                            assert(i0 + 1 <= m <= j);
                        }
                    }
                }
            }
            assert(transferable(data, i0, i0, base, room, ram));
            if t.1 is Fault {
                let j = choose|j: int|
                    #[trigger] stops_unmapped(data, i0 + 1, j, base, room, ram);
                assert(transferable(data, i0, j - 1, base, room, ram));
                assert(stops_unmapped(data, i0, j, base, room, ram));
            }
            if t.1 is OutOfRange {
                let j = choose|j: int| #[trigger] stops_at_end(data, i0 + 1, j, base, room, ram);
                assert(transferable(data, i0, j - 1, base, room, ram));
                assert(stops_at_end(data, i0, j, base, room, ram));
            }
            if len - 1 > i0 {
                assert(transferable(data, i0, len - 1, base, room, ram) == transferable(
                    data,
                    i0 + 1,
                    len - 1,
                    base,
                    room,
                    ram,
                ));
            }
            assert forall|p: int|
                0 <= p < room && (forall|j: int|
                    i0 < j < len && transferable(data, i0, j, base, room, ram)
                        ==> !#[trigger] on_disk(data, base, j, p)) implies #[trigger] t.0[p]
                == next[p] by {
                assert forall|j: int|
                    i0 + 1 <= j < len && transferable(data, i0 + 1, j, base, room, ram) implies
                    !#[trigger] on_disk(data, base, j, p) by {
                    assert(transferable(data, i0, j, base, room, ram));
                }
            }
            assert forall|j: int, k: int|
                i0 <= j < len && transferable(data, i0, j, base, room, ram) && 0 <= k
                    < data[j].len implies #[trigger] landed(t.0, data, base, ram, j, k) by {
                if j == i0 {
                    let p = at + k;
                    assert forall|m: int|
                        i0 < m < len && transferable(data, i0, m, base, room, ram) implies
                        !#[trigger] on_disk(data, base, m, p) by {
                        bytes_before_grow(data, i0 + 1, m);
                    }
                    assert(t.0[p] == next[p]);
                    assert(next.subrange(at, at + raw.len())[k] == raw[k]);
                } else {
                    assert(landed(t.0, data, base, ram, j, k));
                }
            }
            assert forall|p: int|
                0 <= p < room && (forall|j: int|
                    i0 <= j < len && transferable(data, i0, j, base, room, ram)
                        ==> !#[trigger] on_disk(data, base, j, p)) implies #[trigger] t.0[p]
                == disk[p] by {
                assert(!on_disk(data, base, i0, p));
                assert(t.0[p] == next[p]);
            }
        }
    }
}

/// A write is done exactly where its sector plus the length of all its buffers stays within the
/// disk and every buffer is mapped. It is answered with success there, and the disk then holds
/// byte `k` of the buffer at index `j` at its place, and at every place `p` outside the written
/// range what it held before. The device writes nothing but the answer into guest memory.
pub proof fn write_is_done_iff_it_fits(
    req: RequestView,
    disk: Seq<u8>,
    ram: RamView,
    j: int,
    k: int,
    p: int,
)
    requires
        req.kind == 1,
        req.data.len() > 0,
        all_readable(req.data),
    ensures
        ({
            let e = model::executed(req, disk, ram);
            let len = req.data.len() as int;
            let base = req.sector * 512;
            let fits = base + bytes_before(req.data, len) <= disk.len() && all_reachable(
                req.data,
                ram,
            );
            &&& fits <==> e.completion == Some(RequestCompletion { status: 0, used_len: 1 })
            &&& !fits ==> e.completion is None || e.completion == Some(
                RequestCompletion { status: 1, used_len: 1 },
            )
            &&& e.ram == ram
            &&& e.disk.len() == disk.len()
            &&& fits && 0 <= j < len && 0 <= k < req.data[j].len ==> e.disk[base + bytes_before(
                req.data,
                j,
            ) + k] == ram.bytes[req.data[j].addr + k]
            &&& 0 <= p < disk.len() && !(base <= p < base + bytes_before(req.data, len))
                ==> e.disk[p] == disk[p]
        }),
{
    let e = model::executed(req, disk, ram);
    let data = req.data;
    let len = data.len() as int;
    let base = req.sector * 512;
    assert forall|m: int| 0 <= m < len implies !(#[trigger] data[m]).is_writable() by {
        let flags = data[m].flags;
        assert(flags & 2 == 0);
    }
    assert(req.data_ok());
    bytes_before_grow(data, 0, len);
    assert(bytes_before(data, 0) == 0);
    if base <= disk.len() {
        disk_takes_buffers(disk, data, 0, base, ram);
        assert(transferable(data, 0, len - 1, base, disk.len() as int, ram) <==> base
            + bytes_before(data, len) <= disk.len() && all_reachable(data, ram));
        if 0 <= j < len && 0 <= k < data[j].len && base + bytes_before(data, len) <= disk.len()
            && all_reachable(data, ram) {
            bytes_before_grow(data, j + 1, len);
            assert(transferable(data, 0, j, base, disk.len() as int, ram));
            assert(landed(e.disk, data, base, ram, j, k));
        }
        if 0 <= p < disk.len() && !(base <= p < base + bytes_before(data, len)) {
            assert forall|m: int|
                0 <= m < len && transferable(data, 0, m, base, disk.len() as int, ram) implies
                !#[trigger] on_disk(data, base, m, p) by {
                bytes_before_grow(data, m + 1, len);
                bytes_before_grow(data, 0, m);
            }
            assert(e.disk[p] == disk[p]);
        }
    }
}

/// How a write ends that does not fit: the request is not answered where its sector lies past the
/// end of the disk, or where a buffer is not mapped and all buffers before it are mapped and stay
/// within the disk; it is answered as failed where a buffer that is mapped reaches past the end of
/// the disk, and all buffers before it are mapped and stay within the disk.
pub proof fn unfit_write_ends_at_first_obstacle(req: RequestView, disk: Seq<u8>, ram: RamView)
    requires
        req.kind == 1,
        req.data.len() > 0,
        all_readable(req.data),
    ensures
        ({
            let e = model::executed(req, disk, ram);
            let base = req.sector * 512;
            let room = disk.len() as int;
            &&& e.completion is None ==> base > room || exists|j: int|
                #[trigger] stops_unmapped(req.data, 0, j, base, room, ram)
            &&& e.completion is Some && e.completion.unwrap().status != 0 ==> base <= room
                && exists|j: int| #[trigger] stops_at_end(req.data, 0, j, base, room, ram)
        }),
{
    let data = req.data;
    let base = req.sector * 512;
    assert forall|m: int| 0 <= m < data.len() implies !(#[trigger] data[m]).is_writable() by {
        let flags = data[m].flags;
        assert(flags & 2 == 0);
    }
    assert(req.data_ok());
    assert(bytes_before(data, 0) == 0);
    if base <= disk.len() {
        disk_takes_buffers(disk, data, 0, base, ram);
    }
}

/// A transfer to the guest that stops at the buffer at index `j` because that buffer would reach
/// past the end of the disk.
pub open spec fn runs_out_of_disk(
    data: Seq<Descriptor>,
    i: int,
    j: int,
    base: int,
    room: int,
    ram: RamView,
) -> bool {
    &&& i <= j < data.len()
    &&& base + bytes_before(data, j + 1) > room
    &&& transferable(data, i, j - 1, base, room, ram)
}

/// A transfer to the guest that stops at the buffer at index `j` because that buffer, for which
/// the disk has the bytes, is not mapped.
pub open spec fn runs_out_of_memory(
    data: Seq<Descriptor>,
    i: int,
    j: int,
    base: int,
    room: int,
    ram: RamView,
) -> bool {
    &&& i <= j < data.len()
    &&& !reachable(data[j], ram)
    &&& base + bytes_before(data, j + 1) <= room
    &&& transferable(data, i, j - 1, base, room, ram)
}

/// No buffer after the one at index `j` has the address.
pub open spec fn last_to_have(data: Seq<Descriptor>, j: int, a: int) -> bool {
    forall|m: int| j < m < data.len() ==> !#[trigger] model::in_buffer(data[m], a)
}

/// Byte `k` of the buffer at index `j` is the byte of the disk at its place.
pub open spec fn arrived(
    ram: RamView,
    data: Seq<Descriptor>,
    base: int,
    disk: Seq<u8>,
    j: int,
    k: int,
) -> bool {
    ram.bytes[data[j].addr + k] == disk[base + bytes_before(data, j) + k]
}

/// A transfer to the guest fills every buffer that can be filled together with all buffers before
/// it, each byte with the one at its place on the disk. It is done exactly where that holds of all
/// buffers, and otherwise stops at the first buffer that reaches past the end of the disk or is
/// not mapped.
pub proof fn buffers_take_disk(
    disk: Seq<u8>,
    data: Seq<Descriptor>,
    i: nat,
    base: int,
    ram: RamView,
)
    requires
        0 <= base,
        i <= data.len(),
        base + bytes_before(data, i as int) <= disk.len(),
    ensures
        ({
            let t = model::copied_to_guest(disk, data, i, base + bytes_before(data, i as int), ram);
            let len = data.len() as int;
            let room = disk.len() as int;
            &&& order::same_mapping(ram, t.0)
            &&& t.1 is Done <==> transferable(data, i as int, len - 1, base, room, ram)
            &&& t.1 is Fault ==> exists|j: int|
                #[trigger] runs_out_of_memory(data, i as int, j, base, room, ram)
            &&& t.1 is OutOfRange ==> exists|j: int|
                #[trigger] runs_out_of_disk(data, i as int, j, base, room, ram)
            &&& forall|j: int, k: int|
                i <= j < len && transferable(data, i as int, j, base, room, ram) && 0 <= k
                    < data[j].len && last_to_have(data, j, data[j].addr + k)
                    ==> #[trigger] arrived(t.0, data, base, disk, j, k)
        }),
    decreases data.len() - i,
{
    let at = base + bytes_before(data, i as int);
    let len = data.len() as int;
    let room = disk.len() as int;
    let i0 = i as int;
    let t = model::copied_to_guest(disk, data, i, at, ram);
    bytes_before_grow(data, 0, i0);
    laws::transfer_stays_in_buffers(disk, data, i, at, ram);
    if i < data.len() {
        let d = data[i0];
        assert(bytes_before(data, i0 + 1) == bytes_before(data, i0) + d.len);
        bytes_before_grow(data, i0 + 1, len);
        assert(reachable(d, ram) <==> ram.mapped(d.addr as int, d.len as int));
        if at + d.len > room {
            assert(t.1 is OutOfRange);
            assert(runs_out_of_disk(data, i0, i0, base, room, ram));
            assert forall|j: int| i0 <= j < len implies !(#[trigger] transferable(
                data,
                i0,
                j,
                base,
                room,
                ram,
            )) by {
                bytes_before_grow(data, i0 + 1, j + 1);
            }
        } else {
            let chunk = disk.subrange(at, at + d.len);
            let (next, ok) = ram.store(d.addr as int, chunk);
            guest_memory::load_after_store(ram, d.addr as int, chunk);
            assert(ok <==> reachable(d, ram));
            if !ok {
                assert(runs_out_of_memory(data, i0, i0, base, room, ram));
            } else {
                buffers_take_disk(disk, data, i + 1, base, next);
                laws::transfer_stays_in_buffers(disk, data, i + 1, at + d.len, next);
                assert forall|m: int| 0 <= m < len implies reachable(#[trigger] data[m], next)
                    == reachable(data[m], ram) by {
                    same_mapping_reaches_the_same(data[m], ram, next);
                }
                assert forall|j: int| i0 < j < len implies #[trigger] transferable(
                    data,
                    i0,
                    j,
                    base,
                    room,
                    ram,
                ) == transferable(data, i0 + 1, j, base, room, next) by {
                    if transferable(data, i0 + 1, j, base, room, next) {
                        assert forall|m: int| i0 <= m <= j implies reachable(
                            #[trigger] data[m],
                            ram,
                        ) by {
                            if m > i0 {
                                assert(reachable(data[m], next));
                            }
                        }
                    }
                    if transferable(data, i0, j, base, room, ram) {
                        assert forall|m: int| i0 + 1 <= m <= j implies reachable(
                            #[trigger] data[m],
                            next,
                        ) by {
                            assert(reachable(data[m], ram));
                        }
                    }
                }
                assert(transferable(data, i0, i0, base, room, ram));
                if t.1 is Fault {
                    let j = choose|j: int|
                        #[trigger] runs_out_of_memory(data, i0 + 1, j, base, room, next);
                    assert(transferable(data, i0, j - 1, base, room, ram));
                    assert(runs_out_of_memory(data, i0, j, base, room, ram));
                }
                if t.1 is OutOfRange {
                    let j = choose|j: int|
                        #[trigger] runs_out_of_disk(data, i0 + 1, j, base, room, next);
                    assert(transferable(data, i0, j - 1, base, room, ram));
                    assert(runs_out_of_disk(data, i0, j, base, room, ram));
                }
                if len - 1 > i0 {
                    assert(transferable(data, i0, len - 1, base, room, ram) == transferable(
                        data,
                        i0 + 1,
                        len - 1,
                        base,
                        room,
                        next,
                    ));
                }
                assert forall|j: int, k: int|
                    i0 <= j < len && transferable(data, i0, j, base, room, ram) && 0 <= k
                        < data[j].len && last_to_have(data, j, data[j].addr + k) implies
                    #[trigger] arrived(t.0, data, base, disk, j, k) by {
                    if j == i0 {
                        let a = d.addr + k;
                        assert(next.at(d.addr as int, d.len as nat)[k] == chunk[k]);
                        assert(ram.bytes.contains_key(a));
                        assert(next.bytes.contains_key(a));
                        assert forall|m: int| i0 + 1 <= m < len implies
                            !#[trigger] model::in_buffer(data[m], a) by {
                            assert(i0 < m);
                        }
                        assert(t.0.bytes[a] == next.bytes[a]);
                    } else {
                        assert(arrived(t.0, data, base, disk, j, k));
                    }
                }
            }
        }
    }
}

/// Where memory is mapped in the same way, the same buffers are mapped.
proof fn same_mapping_reaches_the_same(d: Descriptor, before: RamView, after: RamView)
    requires
        after.bytes.dom() == before.bytes.dom(),
    ensures
        reachable(d, after) == reachable(d, before),
{
    if reachable(d, after) {
        assert forall|a: int| d.addr <= a < d.addr + d.len implies
            #[trigger] before.bytes.contains_key(a) by {
            assert(after.bytes.contains_key(a));
        }
    }
    if reachable(d, before) {
        assert forall|a: int| d.addr <= a < d.addr + d.len implies
            #[trigger] after.bytes.contains_key(a) by {
            assert(before.bytes.contains_key(a));
        }
    }
}

/// A read is done exactly where its sector plus the length of all its buffers stays within the
/// disk and every buffer is mapped. It is answered with success there, reports as written the
/// length of its buffers and the status byte, and byte `k` of the buffer at index `j` is the byte
/// of the disk at its place, where no later buffer lies over it. The disk stays as it is.
pub proof fn read_is_done_iff_it_fits(
    req: RequestView,
    disk: Seq<u8>,
    ram: RamView,
    j: int,
    k: int,
)
    requires
        req.kind == 0,
        req.data.len() > 0,
        all_writable(req.data),
    ensures
        ({
            let e = model::executed(req, disk, ram);
            let len = req.data.len() as int;
            let base = req.sector * 512;
            let total = bytes_before(req.data, len);
            let fits = base + total <= disk.len() && all_reachable(req.data, ram);
            &&& fits <==> e.completion is Some && e.completion.unwrap().status == 0
            &&& fits && total < u32::MAX ==> e.completion.unwrap().used_len == total + 1
            &&& !fits ==> e.completion is None || e.completion == Some(
                RequestCompletion { status: 1, used_len: 1 },
            )
            &&& e.completion is None ==> base > disk.len() || exists|m: int|
                #[trigger] runs_out_of_memory(req.data, 0, m, base, disk.len() as int, ram)
            &&& e.completion is Some && e.completion.unwrap().status != 0 ==> base <= disk.len()
                && exists|m: int|
                #[trigger] runs_out_of_disk(req.data, 0, m, base, disk.len() as int, ram)
            &&& e.disk == disk
            &&& fits && 0 <= j < len && 0 <= k < req.data[j].len && last_to_have(
                req.data,
                j,
                req.data[j].addr + k,
            ) ==> e.ram.bytes[req.data[j].addr + k] == disk[base + bytes_before(req.data, j) + k]
        }),
{
    let e = model::executed(req, disk, ram);
    let data = req.data;
    let len = data.len() as int;
    let base = req.sector * 512;
    assert forall|m: int| 0 <= m < len implies (#[trigger] data[m]).is_writable() by {
        let flags = data[m].flags;
        assert(flags & 2 == 2);
    }
    assert(req.data_ok());
    assert(bytes_before(data, 0) == 0);
    total_is_bytes_before(data, 0);
    bytes_before_grow(data, 0, len);
    if base <= disk.len() {
        buffers_take_disk(disk, data, 0, base, ram);
        assert(transferable(data, 0, len - 1, base, disk.len() as int, ram) <==> base
            + bytes_before(data, len) <= disk.len() && all_reachable(data, ram));
        if 0 <= j < len && 0 <= k < data[j].len && base + bytes_before(data, len) <= disk.len()
            && all_reachable(data, ram) && last_to_have(data, j, data[j].addr + k) {
            bytes_before_grow(data, j + 1, len);
            assert(transferable(data, 0, j, base, disk.len() as int, ram));
            assert(arrived(e.ram, data, base, disk, j, k));
        }
    }
}

/// The length of the buffers from index `i` on is what comes after the buffers before it.
proof fn total_is_bytes_before(data: Seq<Descriptor>, i: nat)
    requires
        i <= data.len(),
    ensures
        model::total_len(data, i) == bytes_before(data, data.len() as int) - bytes_before(
            data,
            i as int,
        ),
    decreases data.len() - i,
{
    if i < data.len() {
        total_is_bytes_before(data, i + 1);
    }
}

/// How many bytes of the serial the buffer at index `j` takes.
pub open spec fn share(data: Seq<Descriptor>, j: int) -> int {
    if bytes_before(data, j) >= 17 {
        0
    } else if bytes_before(data, j + 1) <= 17 {
        data[j].len as int
    } else {
        17 - bytes_before(data, j)
    }
}

/// The device has the serial "AXVISOR-UEFI-BLK", with a null byte behind it.
pub proof fn serial_is_spelled(q: int)
    ensures
        model::serial().len() == 17,
        0 <= q < 16 ==> model::serial()[q] == "AXVISOR-UEFI-BLK"@[q] as u8,
        model::serial()[16] == 0,
{
    reveal_strlit("AXVISOR-UEFI-BLK");
    let text = "AXVISOR-UEFI-BLK"@;
    assert(text[0] == 'A' && text[1] == 'X' && text[2] == 'V' && text[3] == 'I' && text[4] == 'S'
        && text[5] == 'O' && text[6] == 'R' && text[7] == '-' && text[8] == 'U' && text[9] == 'E'
        && text[10] == 'F' && text[11] == 'I' && text[12] == '-' && text[13] == 'B' && text[14]
        == 'L' && text[15] == 'K');
}

/// The part of the serial that goes to the buffer at index `j` has room there.
pub open spec fn share_reachable(data: Seq<Descriptor>, j: int, ram: RamView) -> bool {
    forall|a: int|
        data[j].addr <= a < data[j].addr + share(data, j) ==> #[trigger] ram.bytes.contains_key(a)
}

/// Byte `k` of the buffer at index `j` is the byte of the serial at its place.
pub open spec fn holds_serial(ram: RamView, data: Seq<Descriptor>, j: int, k: int) -> bool {
    ram.bytes[data[j].addr + k] == model::serial()[bytes_before(data, j) + k]
}

/// As many bytes as the serial has at most.
pub open spec fn up_to_serial(n: int) -> nat {
    if n <= 17 {
        n as nat
    } else {
        17
    }
}

/// Handing out the serial from the buffer at index `i` on works exactly where every buffer has room
/// for its part, and then as much of the serial has gone out as the buffers take.
pub proof fn buffers_take_serial(data: Seq<Descriptor>, i: nat, ram: RamView)
    requires
        i <= data.len(),
    ensures
        ({
            let b = bytes_before(data, i as int);
            let t = model::serial_to_guest(data, i, up_to_serial(b), ram);
            let len = data.len() as int;
            let total = bytes_before(data, len);
            let all = forall|j: int| i <= j < len ==> #[trigger] share_reachable(data, j, ram);
            &&& order::same_mapping(ram, t.0)
            &&& all <==> t.1 is Some
            &&& all ==> t.1 == Some(up_to_serial(total))
            &&& all ==> forall|j: int, k: int|
                i <= j < len && 0 <= k < share(data, j) && last_to_have(data, j, data[j].addr + k)
                    ==> #[trigger] holds_serial(t.0, data, j, k)
            &&& forall|a: int|
                order::in_no_buffer(data, i, a) ==> #[trigger] order::same_byte(ram, t.0, a)
        }),
    decreases data.len() - i,
{
    let i0 = i as int;
    let len = data.len() as int;
    bytes_before_grow(data, 0, i0);
    bytes_before_grow(data, i0, len);
    serial_is_spelled(0);
    let b = bytes_before(data, i0);
    let w = up_to_serial(b);
    let t = model::serial_to_guest(data, i, w, ram);
    if i >= data.len() || w >= 17 {
        assert forall|j: int| i0 <= j < len implies #[trigger] share_reachable(data, j, ram) by {
            bytes_before_grow(data, i0, j);
        }
        assert forall|j: int, k: int|
            i0 <= j < len && 0 <= k < share(data, j) && last_to_have(data, j, data[j].addr + k) implies
            #[trigger] holds_serial(t.0, data, j, k) by {
            bytes_before_grow(data, i0, j);
        }
    } else {
        let d = data[i0];
        assert(bytes_before(data, i0 + 1) == b + d.len);
        let end: nat = if w + d.len <= 17 {
            (w + d.len) as nat
        } else {
            17
        };
        let chunk = model::serial().subrange(w as int, end as int);
        assert(chunk.len() == share(data, i0));
        let (next, ok) = ram.store(d.addr as int, chunk);
        guest_memory::load_after_store(ram, d.addr as int, chunk);
        assert(share_reachable(data, i0, ram) <==> ram.mapped(d.addr as int, chunk.len() as int));
        if !ok {
            assert(!share_reachable(data, i0, ram));
            assert forall|a: int| order::in_no_buffer(data, i, a) implies #[trigger] order::same_byte(
                ram,
                t.0,
                a,
            ) by {
                assert(!model::in_buffer(data[i0], a));
            }
        } else {
            buffers_take_serial(data, i + 1, next);
            let b2 = bytes_before(data, (i + 1) as int);
            let w2 = up_to_serial(b2);
            assert(w2 == end);
            assert(t == model::serial_to_guest(data, i + 1, w2, next));
            assert forall|j: int| i0 < j < len implies #[trigger] share_reachable(data, j, next)
                == share_reachable(data, j, ram) by {
                if share_reachable(data, j, next) {
                    assert forall|a: int|
                        data[j].addr <= a < data[j].addr + share(data, j) implies
                        #[trigger] ram.bytes.contains_key(a) by {
                        assert(next.bytes.contains_key(a));
                    }
                }
                if share_reachable(data, j, ram) {
                    assert forall|a: int|
                        data[j].addr <= a < data[j].addr + share(data, j) implies
                        #[trigger] next.bytes.contains_key(a) by {
                        assert(ram.bytes.contains_key(a));
                    }
                }
            }
            let all = forall|j: int| i <= j < len ==> #[trigger] share_reachable(data, j, ram);
            let rest = forall|j: int|
                i + 1 <= j < len ==> #[trigger] share_reachable(data, j, next);
            assert(share_reachable(data, i0, ram));
            if all {
                assert forall|j: int| i + 1 <= j < len implies #[trigger] share_reachable(
                    data,
                    j,
                    next,
                ) by {
                    assert(share_reachable(data, j, ram));
                }
            }
            if rest {
                assert forall|j: int| i <= j < len implies #[trigger] share_reachable(
                    data,
                    j,
                    ram,
                ) by {
                    if j > i0 {
                        assert(share_reachable(data, j, next));
                    }
                }
            }
            assert(all == rest);
            assert forall|a: int| order::in_no_buffer(data, i, a) implies #[trigger] order::same_byte(
                ram,
                t.0,
                a,
            ) by {
                assert(!model::in_buffer(data[i0], a));
                assert(order::in_no_buffer(data, i + 1, a));
                assert(order::same_byte(next, t.0, a));
                if ram.bytes.contains_key(a) {
                    assert(next.bytes.contains_key(a));
                }
            }
            if all {
                assert forall|j: int, k: int|
                    i0 <= j < len && 0 <= k < share(data, j) && last_to_have(
                        data,
                        j,
                        data[j].addr + k,
                    ) implies #[trigger] holds_serial(t.0, data, j, k) by {
                    if j == i0 {
                        let a = d.addr + k;
                        assert(ram.bytes.contains_key(a));
                        assert(next.at(d.addr as int, chunk.len())[k] == chunk[k]);
                        assert(order::in_no_buffer(data, i + 1, a)) by {
                            assert forall|m: int| i + 1 <= m < len implies
                                !#[trigger] model::in_buffer(data[m], a) by {
                                assert(i0 < m);
                            }
                        }
                        assert(next.bytes.contains_key(a));
                        assert(order::same_byte(next, t.0, a));
                    } else {
                        assert(holds_serial(t.0, data, j, k));
                    }
                }
            }
        }
    }
}

/// Asking for the serial is answered with success exactly where every buffer has room for its part
/// of it, and reports as much as the buffers take. Byte `k` of the buffer at index `j` is then the
/// letter of "AXVISOR-UEFI-BLK" at its place, or the null byte behind it, where no later buffer
/// lies over it. The disk stays as it is.
pub proof fn serial_is_handed_out(req: RequestView, disk: Seq<u8>, ram: RamView, j: int, k: int)
    requires
        req.kind == 8,
        req.data.len() > 0,
        all_writable(req.data),
    ensures
        ({
            let e = model::executed(req, disk, ram);
            let len = req.data.len() as int;
            let total = bytes_before(req.data, len);
            let all = forall|m: int|
                0 <= m < len ==> #[trigger] share_reachable(req.data, m, ram);
            let at = bytes_before(req.data, j) + k;
            &&& e.disk == disk
            &&& !all ==> e.completion is None
            &&& all ==> e.completion == Some(
                RequestCompletion {
                    status: 0,
                    used_len: if total <= 17 {
                        total as u32
                    } else {
                        17
                    },
                },
            )
            &&& all && 0 <= j < len && 0 <= k < req.data[j].len && at < 17 && last_to_have(
                req.data,
                j,
                req.data[j].addr + k,
            ) ==> e.ram.bytes[req.data[j].addr + k] == if at < 16 {
                "AXVISOR-UEFI-BLK"@[at] as u8
            } else {
                0
            }
        }),
{
    let data = req.data;
    let len = data.len() as int;
    assert forall|m: int| 0 <= m < len implies (#[trigger] data[m]).is_writable() by {
        let flags = data[m].flags;
        assert(flags & 2 == 2);
    }
    assert(req.data_ok());
    assert(bytes_before(data, 0) == 0);
    bytes_before_grow(data, 0, len);
    buffers_take_serial(data, 0, ram);
    let b: int = bytes_before(data, 0nat as int);
    let w = up_to_serial(b);
    assert(w == 0);
    let t = model::serial_to_guest(data, 0, w, ram);
    assert(model::executed(req, disk, ram).ram == t.0);
    let at = bytes_before(data, j) + k;
    if 0 <= j < len && 0 <= k < data[j].len && at < 17 {
        bytes_before_grow(data, 0, j);
        serial_is_spelled(at);
        assert(bytes_before(data, j + 1) == bytes_before(data, j) + data[j].len);
        assert(k < share(data, j));
        if (forall|m: int| 0 <= m < len ==> #[trigger] share_reachable(data, m, ram))
            && last_to_have(data, j, data[j].addr + k) {
            assert(holds_serial(t.0, data, j, k));
        }
    }
}

/// A request of a kind that is none of reading (0), writing (1) and asking for the serial (8) is
/// answered as unknown. One of these kinds without data, or with a buffer that the device would
/// have to write but may not, or that it may write but is to read, is answered as failed. Neither
/// touches the disk or guest memory.
pub proof fn unusable_request_is_refused(req: RequestView, disk: Seq<u8>, ram: RamView)
    ensures
        ({
            let e = model::executed(req, disk, ram);
            let known = req.kind == 0 || req.kind == 1 || req.kind == 8;
            let usable = req.data.len() > 0 && if req.kind == 1 {
                all_readable(req.data)
            } else {
                all_writable(req.data)
            };
            &&& !known ==> e.completion == Some(RequestCompletion { status: 2, used_len: 1 })
            &&& known && !usable ==> e.completion == Some(
                RequestCompletion { status: 1, used_len: 1 },
            )
            &&& !known || !usable ==> e.disk == disk && e.ram == ram
        }),
{
    let data = req.data;
    assert forall|m: int| 0 <= m < data.len() implies (#[trigger] data[m]).is_writable() == (
    data[m].flags & 2 == 2) && data[m].is_writable() != (data[m].flags & 2 == 0) by {
        let flags = data[m].flags;
        assert(flags & 2 == 0 || flags & 2 == 2) by (bit_vector);
    }
    if req.known() && req.data_ok() {
        assert forall|m: int| 0 <= m < data.len() implies (#[trigger] data[m]).flags & 2 == if req.kind
            == 1 {
            0u16
        } else {
            2u16
        } by {
            assert(data[m].is_writable() == (req.kind != 1));
        }
    }
}

/// A request reports a length that does not fit its field exactly where it is a read that fits,
/// and its buffers are as long as the field can count, or longer.
pub proof fn length_overflows_iff_read_is_too_long(req: RequestView, disk: Seq<u8>, ram: RamView)
    ensures
        model::length_overflows(req, disk, ram) <==> {
            let total = bytes_before(req.data, req.data.len() as int);
            &&& req.kind == 0 && req.data.len() > 0 && all_writable(req.data)
            &&& req.sector * 512 + total <= disk.len() && all_reachable(req.data, ram)
            &&& total >= 0xffff_ffff
        },
{
    let data = req.data;
    assert forall|m: int| 0 <= m < data.len() implies ((#[trigger] data[m]).is_writable() <==> data[
        m].flags & 2 == 2) by {
        let flags = data[m].flags;
        assert(flags & 2 == 2 || flags & 2 == 0) by (bit_vector);
    }
    if req.kind == 0 {
        if req.data_ok() {
            assert(data.len() > 0);
            assert forall|m: int| 0 <= m < data.len() implies (#[trigger] data[m]).flags & 2 == 2 by {
                assert(data[m].is_writable());
            }
            read_is_done_iff_it_fits(req, disk, ram, 0, 0);
            total_is_bytes_before(data, 0);
            bytes_before_grow(data, 0, data.len() as int);
        } else if data.len() > 0 && all_writable(data) {
            assert forall|m: int| 0 <= m < data.len() implies (#[trigger] data[m]).is_writable() by {
                assert(data[m].flags & 2 == 2);
            }
        }
    }
}

} // verus!
