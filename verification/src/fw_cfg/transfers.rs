//! What a DMA transfer of the firmware configuration does, by the bytes of its descriptor.

use vstd::prelude::*;

use crate::bytes;
use crate::fw_cfg::content::FwCfgContent;
use crate::fw_cfg::device;
use crate::fw_cfg::device::FwCfgDmaRequest;
use crate::fw_cfg::inner;
use crate::fw_cfg::inner::FwCfgView;
use crate::fw_cfg::laws;
use crate::guest_memory;
use crate::guest_memory::RamView;

verus! {

/// The number that the `n` bytes from `a` on make, the most significant one first.
pub open spec fn number_at(ram: RamView, a: int, n: nat) -> int
    decreases n,
{
    if n == 0 {
        0
    } else {
        0x100 * number_at(ram, a, (n - 1) as nat) + ram.bytes[a + n - 1]
    }
}

/// Every one of the `len` addresses from `a` on is mapped.
pub open spec fn present(ram: RamView, a: int, len: int) -> bool {
    forall|b: int| a <= b < a + len ==> #[trigger] ram.bytes.contains_key(b)
}

/// Where the buffer of the transfer starts whose descriptor lies at `gpa`: its last eight bytes.
pub open spec fn buffer(ram: RamView, gpa: int) -> int {
    number_at(ram, gpa + 8, 8)
}

/// How many bytes the transfer is to move: the second four bytes of its descriptor.
pub open spec fn length(ram: RamView, gpa: int) -> int {
    number_at(ram, gpa + 4, 4)
}

/// What the transfer is asked to do: the second two bytes of its descriptor. Bit 0 comes back as it
/// is, bit 1 asks for a read, bit 2 to skip, bit 3 to select, and bit 4 for a write.
pub open spec fn orders(ram: RamView, gpa: int) -> int {
    number_at(ram, gpa + 2, 2)
}

/// The item that a transfer selects: the first two bytes of its descriptor.
pub open spec fn named_item(ram: RamView, gpa: int) -> int {
    number_at(ram, gpa, 2)
}

/// The transfer selects an item first.
pub open spec fn asks_select(ram: RamView, gpa: int) -> bool {
    orders(ram, gpa) / 8 % 2 == 1
}

/// The transfer reads.
pub open spec fn asks_read(ram: RamView, gpa: int) -> bool {
    orders(ram, gpa) / 2 % 2 == 1
}

/// The transfer writes, which it does only where it does not read.
pub open spec fn asks_write(ram: RamView, gpa: int) -> bool {
    !asks_read(ram, gpa) && orders(ram, gpa) / 16 % 2 == 1
}

/// The transfer skips, which it does only where it neither reads nor writes.
pub open spec fn asks_skip(ram: RamView, gpa: int) -> bool {
    !asks_read(ram, gpa) && !asks_write(ram, gpa) && orders(ram, gpa) / 4 % 2 == 1
}

/// What the fields of a descriptor that was read in one go are.
pub(crate) proof fn descriptor_is_its_bytes(ram: RamView, gpa: int)
    ensures
        ({
            let r = FwCfgDmaRequest::decoded(ram.at(gpa, 16));
            &&& r.item() == named_item(ram, gpa)
            &&& r.length == length(ram, gpa)
            &&& r.address == buffer(ram, gpa)
            &&& r.selects() == asks_select(ram, gpa)
            &&& r.reads() == asks_read(ram, gpa)
            &&& r.writes() == asks_write(ram, gpa)
            &&& r.skips() == asks_skip(ram, gpa)
            &&& r.has_error() == (orders(ram, gpa) % 2 == 1)
            &&& 0 <= length(ram, gpa) < 0x1_0000_0000
            &&& 0 <= named_item(ram, gpa) < 0x1_0000
        }),
{
    let raw = ram.at(gpa, 16);
    let r = FwCfgDmaRequest::decoded(raw);
    assert(forall|i: int| 0 <= i < 16 ==> raw[i] == ram.bytes[gpa + i]);
    let c = r.control;
    assert(c / 0x1_0000 == named_item(ram, gpa) && c % 0x1_0000 == orders(ram, gpa)) by {
        reveal_with_fuel(number_at, 3);
    }
    assert(r.length == length(ram, gpa)) by {
        reveal_with_fuel(number_at, 5);
    }
    assert(r.address == buffer(ram, gpa)) by {
        reveal_with_fuel(number_at, 9);
    }
    assert((c & 8 != 0) == (c % 0x1_0000 / 8 % 2 == 1) && (c & 2 != 0) == (c % 0x1_0000 / 2 % 2
        == 1) && (c & 16 != 0) == (c % 0x1_0000 / 16 % 2 == 1) && (c & 4 != 0) == (c % 0x1_0000 / 4
        % 2 == 1) && (c & 1 != 0) == (c % 0x1_0000 % 2 == 1)) by (bit_vector);
}

/// The item behind a selector holds `c`: it is an item that is no file, or the first file with that
/// selector.
pub open spec fn holds(dev: FwCfgView, selector: u16, c: Seq<u8>) -> bool {
    if dev.known.contains_key(selector) {
        dev.known[selector] == c
    } else {
        exists|f: int|
            0 <= f < dev.files.len() && (#[trigger] dev.files[f]).selector == selector
                && dev.files[f].content == c && forall|e: int|
                0 <= e < f ==> (#[trigger] dev.files[e]).selector != selector
    }
}

/// There is no item behind a selector.
pub open spec fn lacks(dev: FwCfgView, selector: u16) -> bool {
    !dev.known.contains_key(selector) && forall|e: int|
        0 <= e < dev.files.len() ==> (#[trigger] dev.files[e]).selector != selector
}

/// What a device holds behind its selector is what is selected.
pub proof fn selected_item_is_held(dev: FwCfgView, c: Seq<u8>)
    ensures
        holds(dev, dev.selector, c) <==> dev.selected() == Some(c),
        lacks(dev, dev.selector) <==> dev.selected() is None,
{
    inner::first_file_has_selector(dev.files, dev.selector, 0);
    if !dev.known.contains_key(dev.selector) {
        if holds(dev, dev.selector, c) {
            let f = choose|f: int|
                0 <= f < dev.files.len() && (#[trigger] dev.files[f]).selector == dev.selector
                    && dev.files[f].content == c && forall|e: int|
                    0 <= e < f ==> (#[trigger] dev.files[e]).selector != dev.selector;
            let k = inner::first_file(dev.files, dev.selector, 0).unwrap() as int;
            assert(dev.files[f].selector == dev.selector);
            assert(dev.files[k].selector == dev.selector);
            assert(k == f);
        }
        if dev.selected() == Some(c) {
            let k = inner::first_file(dev.files, dev.selector, 0).unwrap() as int;
            assert(dev.files[k].selector == dev.selector);
        }
    }
}

/// The item that is selected when a transfer moves its bytes: the one that its descriptor names,
/// where it asks for it, and the one that was selected before otherwise.
pub open spec fn item_of(dev: FwCfgView, gpa: int, ram: RamView) -> u16 {
    if asks_select(ram, gpa) {
        named_item(ram, gpa) as u16
    } else {
        dev.selector
    }
}

/// Where in the item a transfer starts: at its beginning, where it has selected it, and where the
/// reader is otherwise.
pub open spec fn start_of(dev: FwCfgView, gpa: int, ram: RamView) -> int {
    if asks_select(ram, gpa) {
        0
    } else {
        dev.offset as int
    }
}

/// A transfer that asks for it leaves as the selected item the one that the first two bytes of its
/// descriptor name, and any other transfer leaves the selected item as it was, whether or not the
/// bytes could be moved. A transfer whose descriptor cannot be read does nothing.
pub proof fn transfer_selects_the_named_item(dev: FwCfgView, gpa: int, ram: RamView)
    ensures
        ({
            let done = device::dma_done(dev, gpa, ram);
            &&& present(ram, gpa, 16) && asks_select(ram, gpa) ==> done.dev.selector == 0x100
                * ram.bytes[gpa] + ram.bytes[gpa + 1]
            &&& present(ram, gpa, 16) && !asks_select(ram, gpa) ==> done.dev.selector
                == dev.selector
            &&& !present(ram, gpa, 16) ==> !done.ok && done.dev == dev && done.ram == ram
            &&& done.dev.dma_high == dev.dma_high && done.dev.pending_dma == dev.pending_dma
        }),
{
    assert(present(ram, gpa, 16) <==> ram.mapped(gpa, 16));
    descriptor_is_its_bytes(ram, gpa);
    reveal_with_fuel(number_at, 3);
}

/// Where every byte of a store is mapped, it works, and each byte arrives.
proof fn store_arrives(ram: RamView, at: int, data: Seq<u8>, a: int)
    ensures
        ram.store(at, data).1 <==> present(ram, at, data.len() as int),
        ram.store(at, data).0.bytes.dom() == ram.bytes.dom(),
        ram.store(at, data).1 && at <= a < at + data.len() ==> ram.store(at, data).0.bytes[a]
            == data[a - at],
        ram.bytes.contains_key(a) && !(at <= a < at + data.len()) ==> ram.store(
            at,
            data,
        ).0.bytes[a] == ram.bytes[a],
{
    guest_memory::load_after_store(ram, at, data);
    assert(ram.mapped(at, data.len() as int) <==> present(ram, at, data.len() as int));
    let after = ram.store(at, data).0;
    if ram.store(at, data).1 && at <= a < at + data.len() {
        assert(after.at(at, data.len())[a - at] == data[a - at]);
    }
}

/// A transfer that reads is carried out exactly where its buffer is mapped. Byte `k` of the buffer
/// is then byte `k` of the item from where the transfer starts, or zero past the end of the item,
/// where the answer does not lie over it, and the reader has moved on by as much as the item had.
pub proof fn transfer_reads_the_item(
    dev: FwCfgView,
    gpa: int,
    ram: RamView,
    c: Seq<u8>,
    k: int,
)
    requires
        present(ram, gpa, 16),
        asks_read(ram, gpa),
        holds(dev, item_of(dev, gpa, ram), c),
    ensures
        ({
            let done = device::dma_done(dev, gpa, ram);
            let start = start_of(dev, gpa, ram);
            let a = buffer(ram, gpa) + k;
            &&& done.ok <==> present(ram, buffer(ram, gpa), length(ram, gpa))
            &&& done.ok && 0 <= k < length(ram, gpa) && !(gpa <= a < gpa + 4)
                ==> done.ram.bytes[a] == if start + k < c.len() {
                c[start + k]
            } else {
                0
            }
            &&& start + length(ram, gpa) <= c.len() ==> done.dev.offset == start + length(ram, gpa)
            &&& start + length(ram, gpa) > c.len() ==> done.dev.offset == c.len()
            &&& done.dev.known == dev.known && done.dev.files == dev.files
        }),
{
    descriptor_is_its_bytes(ram, gpa);
    assert(ram.mapped(gpa, 16));
    let request = FwCfgDmaRequest::decoded(ram.at(gpa, 16));
    let begun = device::dma_selected(dev, request);
    assert(begun.selector == item_of(dev, gpa, ram) && begun.offset == start_of(dev, gpa, ram));
    assert(holds(begun, begun.selector, c));
    selected_item_is_held(begun, c);
    let n = length(ram, gpa) as nat;
    let at = buffer(ram, gpa);
    let data = begun.next_bytes(n);
    let a = at + k;
    store_arrives(ram, at, data, a);
    let moved = ram.store(at, data).0;
    let status: u32 = if request.has_error() {
        1
    } else {
        0
    };
    let word = bytes::be_bytes_u32(status);
    store_arrives(moved, gpa, word, a);
    assert(present(moved, gpa, 4)) by {
        assert forall|b: int| gpa <= b < gpa + 4 implies #[trigger] moved.bytes.contains_key(b) by {
            assert(ram.bytes.contains_key(b));
        }
    }
    if present(ram, at, n as int) && 0 <= k < n {
        assert(ram.bytes.contains_key(a));
        assert(moved.bytes.contains_key(a));
    }
}

/// A transfer that selects the selector of any file and reads as many bytes as the file has
/// delivers the content of that file.
pub proof fn transfer_delivers_listed_file(
    dev: FwCfgView,
    gpa: int,
    ram: RamView,
    f: int,
    k: int,
)
    requires
        dev.wf(),
        present(ram, gpa, 16),
        asks_select(ram, gpa),
        asks_read(ram, gpa),
        0 <= f < dev.files.len(),
        0x100 * ram.bytes[gpa] + ram.bytes[gpa + 1] == dev.files[f].selector,
        length(ram, gpa) == dev.files[f].content.len(),
        present(ram, buffer(ram, gpa), length(ram, gpa)),
        buffer(ram, gpa) + length(ram, gpa) <= gpa || gpa + 4 <= buffer(ram, gpa),
        0 <= k < length(ram, gpa),
    ensures
        device::dma_done(dev, gpa, ram).ok,
        device::dma_done(dev, gpa, ram).ram.bytes[buffer(ram, gpa) + k] == dev.files[f].content[k],
        device::dma_done(dev, gpa, ram).dev.selector == dev.files[f].selector,
{
    reveal_with_fuel(number_at, 3);
    let s = dev.files[f].selector;
    assert(named_item(ram, gpa) == s);
    assert(!dev.known.contains_key(s));
    assert(holds(dev, s, dev.files[f].content)) by {
        assert forall|e: int| 0 <= e < f implies (#[trigger] dev.files[e]).selector != s by {
            assert(dev.files[e].selector != dev.files[f].selector);
        }
    }
    transfer_reads_the_item(dev, gpa, ram, dev.files[f].content, k);
    transfer_selects_the_named_item(dev, gpa, ram);
}

/// A transfer that reads without an item gives zeros, and leaves the reader where it is.
pub proof fn transfer_without_item_gives_zeros(dev: FwCfgView, gpa: int, ram: RamView, k: int)
    requires
        present(ram, gpa, 16),
        asks_read(ram, gpa),
        lacks(dev, item_of(dev, gpa, ram)),
    ensures
        ({
            let done = device::dma_done(dev, gpa, ram);
            let a = buffer(ram, gpa) + k;
            &&& done.ok <==> present(ram, buffer(ram, gpa), length(ram, gpa))
            &&& done.ok && 0 <= k < length(ram, gpa) && !(gpa <= a < gpa + 4) ==> done.ram.bytes[a]
                == 0
            &&& done.dev.offset == start_of(dev, gpa, ram)
            &&& done.dev.known == dev.known && done.dev.files == dev.files
        }),
{
    descriptor_is_its_bytes(ram, gpa);
    assert(ram.mapped(gpa, 16));
    let request = FwCfgDmaRequest::decoded(ram.at(gpa, 16));
    let begun = device::dma_selected(dev, request);
    assert(lacks(begun, begun.selector));
    selected_item_is_held(begun, Seq::empty());
    let n = length(ram, gpa) as nat;
    let at = buffer(ram, gpa);
    let data = begun.next_bytes(n);
    let a = at + k;
    store_arrives(ram, at, data, a);
    let moved = ram.store(at, data).0;
    let status: u32 = if request.has_error() {
        1
    } else {
        0
    };
    store_arrives(moved, gpa, bytes::be_bytes_u32(status), a);
    assert(present(moved, gpa, 4)) by {
        assert forall|b: int| gpa <= b < gpa + 4 implies #[trigger] moved.bytes.contains_key(b) by {
            assert(ram.bytes.contains_key(b));
        }
    }
    if present(ram, at, n as int) && 0 <= k < n {
        assert(ram.bytes.contains_key(a));
        assert(moved.bytes.contains_key(a));
    }
}

/// A transfer that writes is carried out exactly where its buffer is mapped. Byte `i` of the item is
/// then the byte of the buffer at its place, counted from where the transfer starts, and what it was
/// where the buffer does not reach; the item keeps its length, the reader its place, and every other
/// item its content.
pub proof fn transfer_writes_the_item(
    dev: FwCfgView,
    gpa: int,
    ram: RamView,
    c: Seq<u8>,
    i: int,
    other: u16,
)
    requires
        present(ram, gpa, 16),
        asks_write(ram, gpa),
        holds(dev, item_of(dev, gpa, ram), c),
    ensures
        ({
            let done = device::dma_done(dev, gpa, ram);
            let start = start_of(dev, gpa, ram);
            let item = item_of(dev, gpa, ram);
            let n = length(ram, gpa);
            &&& done.ok <==> present(ram, buffer(ram, gpa), n)
            &&& done.dev.offset == start
            &&& done.dev.selector == item
            &&& done.ok ==> done.dev.selected() is Some && done.dev.selected().unwrap().len()
                == c.len()
            &&& done.ok && 0 <= i < c.len() ==> done.dev.selected().unwrap()[i] == if start <= i
                < start + n {
                ram.bytes[buffer(ram, gpa) + (i - start)]
            } else {
                c[i]
            }
            &&& other != item ==> done.dev.selecting(other).selected() == dev.selecting(
                other,
            ).selected()
        }),
{
    descriptor_is_its_bytes(ram, gpa);
    assert(ram.mapped(gpa, 16));
    let request = FwCfgDmaRequest::decoded(ram.at(gpa, 16));
    let begun = device::dma_selected(dev, request);
    assert(holds(begun, begun.selector, c));
    selected_item_is_held(begun, c);
    let n = length(ram, gpa) as nat;
    let at = buffer(ram, gpa);
    assert(ram.mapped(at, n as int) <==> present(ram, at, n as int));
    let data = ram.at(at, n);
    laws::write_changes_selected_item(begun, data, other);
    assert(begun.selecting(other).selected() == dev.selecting(other).selected());
    let status: u32 = if request.has_error() {
        1
    } else {
        0
    };
    store_arrives(ram, gpa, bytes::be_bytes_u32(status), gpa);
    assert(present(ram, gpa, 4)) by {
        assert forall|b: int| gpa <= b < gpa + 4 implies #[trigger] ram.bytes.contains_key(b) by {}
    }
    if present(ram, at, n as int) && 0 <= i < c.len() {
        let now = begun.written(data).selected().unwrap();
        assert(now[i] == if begun.offset <= i < begun.offset + data.len() {
            data[i - begun.offset]
        } else {
            c[i]
        });
    }
}

/// A transfer that skips moves the reader on by its length, at most to the end of the item, and one
/// that asks for nothing leaves it where it is. Either is carried out, and changes no item.
pub proof fn transfer_skips_the_item(dev: FwCfgView, gpa: int, ram: RamView, c: Seq<u8>)
    requires
        present(ram, gpa, 16),
        !asks_read(ram, gpa),
        !asks_write(ram, gpa),
    ensures
        ({
            let done = device::dma_done(dev, gpa, ram);
            let start = start_of(dev, gpa, ram);
            let item = item_of(dev, gpa, ram);
            let n = length(ram, gpa);
            &&& done.ok
            &&& done.dev.selector == item
            &&& done.dev.known == dev.known && done.dev.files == dev.files
            &&& asks_skip(ram, gpa) && holds(dev, item, c) && start + n <= c.len()
                ==> done.dev.offset == start + n
            &&& asks_skip(ram, gpa) && holds(dev, item, c) && start + n > c.len()
                ==> done.dev.offset == c.len()
            &&& asks_skip(ram, gpa) && lacks(dev, item) ==> done.dev.offset == start + n
            &&& !asks_skip(ram, gpa) ==> done.dev.offset == start
        }),
{
    descriptor_is_its_bytes(ram, gpa);
    assert(ram.mapped(gpa, 16));
    let request = FwCfgDmaRequest::decoded(ram.at(gpa, 16));
    let begun = device::dma_selected(dev, request);
    selected_item_is_held(begun, c);
    assert(holds(begun, begun.selector, c) == holds(dev, item_of(dev, gpa, ram), c)) by {
        selected_item_is_held(dev.selecting(begun.selector), c);
    }
    assert(lacks(begun, begun.selector) == lacks(dev, item_of(dev, gpa, ram)));
    let status: u32 = if request.has_error() {
        1
    } else {
        0
    };
    store_arrives(ram, gpa, bytes::be_bytes_u32(status), gpa);
    assert(present(ram, gpa, 4)) by {
        assert forall|b: int| gpa <= b < gpa + 4 implies #[trigger] ram.bytes.contains_key(b) by {}
    }
}

/// A transfer that was carried out has put over the first four bytes of its descriptor the number
/// zero, or one where the lowest of its orders was set, and has changed no memory outside these and
/// the buffer of a read.
pub proof fn transfer_answers_in_its_descriptor(dev: FwCfgView, gpa: int, ram: RamView, a: int)
    requires
        device::dma_done(dev, gpa, ram).ok,
    ensures
        ({
            let after = device::dma_done(dev, gpa, ram).ram;
            let at = buffer(ram, gpa);
            &&& present(ram, gpa, 16)
            &&& number_at(after, gpa, 4) == orders(ram, gpa) % 2
            &&& ram.bytes.contains_key(a) && !(gpa <= a < gpa + 4) && !(asks_read(ram, gpa) && at
                <= a < at + length(ram, gpa)) ==> after.bytes[a] == ram.bytes[a]
            &&& after.bytes.dom() == ram.bytes.dom()
        }),
{
    descriptor_is_its_bytes(ram, gpa);
    assert(ram.mapped(gpa, 16) <==> present(ram, gpa, 16));
    let request = FwCfgDmaRequest::decoded(ram.at(gpa, 16));
    let begun = device::dma_selected(dev, request);
    let data = begun.next_bytes(length(ram, gpa) as nat);
    let moved = device::dma_moved(begun, request, ram).ram;
    let status: u32 = if request.has_error() {
        1
    } else {
        0
    };
    let word = bytes::be_bytes_u32(status);
    store_arrives(ram, buffer(ram, gpa), data, a);
    store_arrives(moved, gpa, word, a);
    store_arrives(moved, gpa, word, gpa);
    store_arrives(moved, gpa, word, gpa + 1);
    store_arrives(moved, gpa, word, gpa + 2);
    store_arrives(moved, gpa, word, gpa + 3);
    if ram.bytes.contains_key(a) {
        assert(moved.bytes.contains_key(a));
    }
    reveal_with_fuel(number_at, 5);
}

/// The bytes of a number of 32 bits in the other order make the number that is waited for: a guest
/// that writes both halves of an address with their bytes in the other order has its transfer at
/// that address.
pub proof fn halves_make_the_address(dev: FwCfgView, high: u32, low: u32)
    ensures
        inner::swapped(high) == high as int % 0x100 * 0x100_0000 + high as int / 0x100 % 0x100
            * 0x1_0000 + high as int / 0x1_0000 % 0x100 * 0x100 + high as int / 0x100_0000,
        inner::swapped(inner::swapped(high)) == high,
        dev.dma_part(inner::swapped(high), true).dma_part(inner::swapped(low), false).pending_dma
            == Some((high * 0x1_0000_0000 + low) as u64),
        dev.dma_part(high, true).pending_dma == dev.pending_dma,
        dev.dma_high is None ==> dev.dma_part(low, false).pending_dma == dev.pending_dma,
        ({
            let d = dev.dma_part(high, true).dma_part(low, false);
            d == FwCfgView { dma_high: None, pending_dma: d.pending_dma, ..dev }
        }),
{
    swapping_twice(high);
    swapping_twice(low);
}

/// The digits of a number that is made of four bytes are these bytes.
proof fn digits_of_four_bytes(a: int, b: int, c: int, d: int)
    requires
        0 <= a < 0x100,
        0 <= b < 0x100,
        0 <= c < 0x100,
        0 <= d < 0x100,
    ensures
        ({
            let w = a * 0x100_0000 + b * 0x1_0000 + c * 0x100 + d;
            &&& 0 <= w < 0x1_0000_0000
            &&& w % 0x100 == d
            &&& w / 0x100 % 0x100 == c
            &&& w / 0x1_0000 % 0x100 == b
            &&& w / 0x100_0000 == a
        }),
{
}

/// What swapping the bytes of a number comes to.
proof fn swapped_digits(v: u32)
    ensures
        inner::swapped(v) == v as int % 0x100 * 0x100_0000 + v as int / 0x100 % 0x100 * 0x1_0000
            + v as int / 0x1_0000 % 0x100 * 0x100 + v as int / 0x100_0000,
{
    let raw = bytes::le_bytes_u32(v);
    let a = v as int % 0x100;
    let b = v as int / 0x100 % 0x100;
    let c = v as int / 0x1_0000 % 0x100;
    let d = v as int / 0x100_0000;
    digits_of_four_bytes(a, b, c, d);
    assert(raw[0] == a && raw[1] == b && raw[2] == c && raw[3] == d);
}

/// Swapping the bytes of a number twice gives it back.
pub(crate) proof fn swapping_twice(v: u32)
    ensures
        inner::swapped(v) == v as int % 0x100 * 0x100_0000 + v as int / 0x100 % 0x100 * 0x1_0000
            + v as int / 0x1_0000 % 0x100 * 0x100 + v as int / 0x100_0000,
        inner::swapped(inner::swapped(v)) == v,
{
    let a = v as int % 0x100;
    let b = v as int / 0x100 % 0x100;
    let c = v as int / 0x1_0000 % 0x100;
    let d = v as int / 0x100_0000;
    let w = inner::swapped(v);
    swapped_digits(v);
    digits_of_four_bytes(a, b, c, d);
    swapped_digits(w);
    assert(inner::swapped(w) == d * 0x100_0000 + c * 0x1_0000 + b * 0x100 + a);
    assert(v == a + 0x100 * b + 0x1_0000 * c + 0x100_0000 * d);
}

/// What is read next of an item is the item from where the reader is, with zeros past its end, and
/// the reader moves on by as much as the item had; skipping moves it as far. Without an item zeros
/// are read and the reader stays, but skipping moves it on. Selecting an item puts the reader at
/// its beginning. None of them changes an item.
pub proof fn reading_gives_the_item(dev: FwCfgView, c: Seq<u8>, size: nat, i: int, selector: u16)
    ensures
        dev.next_bytes(size).len() == size,
        holds(dev, dev.selector, c) ==> {
            &&& 0 <= i < size && dev.offset + i < c.len() ==> dev.next_bytes(size)[i]
                == c[dev.offset + i]
            &&& 0 <= i < size && dev.offset + i >= c.len() ==> dev.next_bytes(size)[i] == 0
            &&& dev.offset + size <= c.len() ==> dev.advanced(size).offset == dev.offset + size
            &&& dev.offset + size > c.len() ==> dev.advanced(size).offset == c.len()
            &&& dev.skipped(size) == dev.advanced(size)
        },
        lacks(dev, dev.selector) ==> {
            &&& 0 <= i < size ==> dev.next_bytes(size)[i] == 0
            &&& dev.advanced(size) == dev
            &&& dev.skipped(size).offset == dev.offset + size
        },
        dev.advanced(size) == (FwCfgView { offset: dev.advanced(size).offset, ..dev }),
        dev.skipped(size) == (FwCfgView { offset: dev.skipped(size).offset, ..dev }),
        dev.selecting(selector) == (FwCfgView { selector, offset: 0, ..dev }),
{
    selected_item_is_held(dev, c);
}

/// A transfer can be carried out unless it skips where there is no item and would move the reader
/// further than can be counted.
pub proof fn transfer_fits_but_for_far_skips(dev: FwCfgView, gpa: int, ram: RamView)
    ensures
        device::dma_fits(dev, gpa, ram) <==> !(present(ram, gpa, 16) && asks_skip(ram, gpa)
            && lacks(dev, item_of(dev, gpa, ram)) && start_of(dev, gpa, ram) + length(ram, gpa)
            > usize::MAX),
{
    descriptor_is_its_bytes(ram, gpa);
    assert(present(ram, gpa, 16) <==> ram.mapped(gpa, 16));
    let request = FwCfgDmaRequest::decoded(ram.at(gpa, 16));
    let begun = device::dma_selected(dev, request);
    selected_item_is_held(begun, Seq::empty());
    assert(lacks(begun, begun.selector) == lacks(dev, begun.selector));
}

/// An item that holds a number reads as its four bytes, the least significant one first, and one
/// that holds bytes as these.
pub proof fn content_is_its_bytes(v: u32, raw: Vec<u8>)
    ensures
        FwCfgContent::U32(v).bytes().len() == 4,
        bytes::le_number(FwCfgContent::U32(v).bytes(), 0, 4) == v,
        FwCfgContent::Bytes(raw).bytes() == raw@,
{
    bytes::bytes_make_their_number(0, v, 0);
}

} // verus!
