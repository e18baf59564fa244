//! What a DMA transfer of the machine's own firmware configuration does, by the bytes of its
//! descriptor, and how the guest sets one off.

use vstd::prelude::*;

use crate::bus::{AccessWidth, Port};
use crate::bytes;
use crate::error::VmError;
use crate::fw_cfg::device::FwCfgDmaRequest;
use crate::fw_cfg::inner;
use crate::fw_cfg::transfers;
use crate::guest_memory::RamView;
use crate::vm::fw_cfg_state;
use crate::vm::exit::VmExit;
use crate::vm::fw_cfg_state::FwCfgStateView;
use crate::vm::machine::VmView;
use crate::vm::status::Arch;

verus! {

/// The item that is selected when a transfer moves its bytes: the one that its descriptor names,
/// where it asks for it, and the one that was selected before otherwise.
pub open spec fn item_of(s: FwCfgStateView, gpa: int, ram: RamView) -> u16 {
    if transfers::asks_select(ram, gpa) {
        transfers::named_item(ram, gpa) as u16
    } else {
        s.selector
    }
}

/// Where in the item a transfer starts: at its beginning, where it has selected it, and where the
/// reader is otherwise.
pub open spec fn start_of(s: FwCfgStateView, gpa: int, ram: RamView) -> int {
    if transfers::asks_select(ram, gpa) {
        0
    } else {
        s.offset as int
    }
}

/// The transfer whose descriptor lies at `gpa` has room: it needs its buffer only where it reads or
/// writes.
pub open spec fn has_room(gpa: int, ram: RamView) -> bool {
    transfers::asks_read(ram, gpa) || transfers::asks_write(ram, gpa) ==> ram.spans(
        transfers::buffer(ram, gpa),
        transfers::length(ram, gpa),
    )
}

/// What is written as a span arrives, and nothing else changes.
proof fn span_arrives(ram: RamView, at: int, data: Seq<u8>, a: int)
    ensures
        ram.store_span(at, data).1 <==> ram.spans(at, data.len() as int),
        ram.store_span(at, data).0.bytes.dom() == ram.bytes.dom(),
        ram.store_span(at, data).0.areas == ram.areas,
        ram.store_span(at, data).1 && at <= a < at + data.len() ==> ram.store_span(
            at,
            data,
        ).0.bytes[a] == data[a - at],
        ram.bytes.contains_key(a) && !(at <= a < at + data.len()) ==> ram.store_span(
            at,
            data,
        ).0.bytes[a] == ram.bytes[a],
{
    let after = ram.store_span(at, data).0;
    assert(after.bytes.dom() =~= ram.bytes.dom());
    if ram.spans(at, data.len() as int) && at <= a < at + data.len() {
        assert(ram.bytes.contains_key(a));
    }
}

/// A transfer whose descriptor can be read selects the item that the first two bytes of the
/// descriptor name, where it asks for it, and changes no item. It is carried out exactly where it
/// has room.
pub proof fn machine_transfer_selects_the_named_item(s: FwCfgStateView, gpa: int, ram: RamView)
    ensures
        ({
            let done = fw_cfg_state::dma_done(s, gpa, ram);
            &&& !ram.spans(gpa, 16) ==> !done.ok && done.state == s && done.ram == ram
            &&& ram.spans(gpa, 16) ==> {
                &&& transfers::asks_select(ram, gpa) ==> done.state.selector == 0x100
                    * ram.bytes[gpa] + ram.bytes[gpa + 1]
                &&& !transfers::asks_select(ram, gpa) ==> done.state.selector == s.selector
                &&& done.ok <==> has_room(gpa, ram)
            }
            &&& done.state.items == s.items
            &&& done.state.dma_high == s.dma_high && done.state.dma_address == s.dma_address
        }),
{
    if ram.spans(gpa, 16) {
        transfers::descriptor_is_its_bytes(ram, gpa);
        reveal_with_fuel(transfers::number_at, 3);
        let request = FwCfgDmaRequest::decoded(ram.at(gpa, 16));
        let begun = fw_cfg_state::dma_selected(s, request);
        let at = transfers::buffer(ram, gpa);
        let data = begun.next_bytes(transfers::length(ram, gpa) as nat);
        span_arrives(ram, at, data, at);
        let moved = fw_cfg_state::dma_moved(begun, request, ram).ram;
        assert(moved.bytes.dom() == ram.bytes.dom() && moved.areas == ram.areas);
        assert(moved.spans(gpa, 4)) by {
            assert(moved.bytes.contains_key(gpa));
            assert forall|b: int| gpa <= b < gpa + 4 implies #[trigger] moved.bytes.contains_key(
                b,
            ) by {
                assert(ram.bytes.contains_key(b));
            }
        }
    }
}

/// A transfer that reads, and has room, fills its buffer with the item from where the transfer
/// starts, with zeros past the end of the item or without an item, where the answer does not lie
/// over it. The reader has moved on by as much as the item had.
pub proof fn machine_transfer_reads_the_item(s: FwCfgStateView, gpa: int, ram: RamView, k: int)
    requires
        ram.spans(gpa, 16),
        transfers::asks_read(ram, gpa),
        has_room(gpa, ram),
    ensures
        ({
            let done = fw_cfg_state::dma_done(s, gpa, ram);
            let start = start_of(s, gpa, ram);
            let item = item_of(s, gpa, ram);
            let n = transfers::length(ram, gpa);
            let a = transfers::buffer(ram, gpa) + k;
            &&& s.items.contains_key(item) ==> {
                let c = s.items[item];
                &&& 0 <= k < n && !(gpa <= a < gpa + 4) ==> done.ram.bytes[a] == if start + k
                    < c.len() {
                    c[start + k]
                } else {
                    0
                }
                &&& start + n <= c.len() ==> done.state.offset == start + n
                &&& start + n > c.len() ==> done.state.offset == c.len()
            }
            &&& !s.items.contains_key(item) ==> {
                &&& 0 <= k < n && !(gpa <= a < gpa + 4) ==> done.ram.bytes[a] == 0
                &&& done.state.offset == start
            }
        }),
{
    transfers::descriptor_is_its_bytes(ram, gpa);
    machine_transfer_selects_the_named_item(s, gpa, ram);
    let request = FwCfgDmaRequest::decoded(ram.at(gpa, 16));
    let begun = fw_cfg_state::dma_selected(s, request);
    let n = transfers::length(ram, gpa) as nat;
    let at = transfers::buffer(ram, gpa);
    let data = begun.next_bytes(n);
    let a = at + k;
    span_arrives(ram, at, data, a);
    let moved = ram.store_span(at, data).0;
    span_arrives(moved, gpa, bytes::be_bytes_u32(fw_cfg_state::dma_status(request)), a);
    if 0 <= k < n {
        assert(ram.bytes.contains_key(a));
        assert(moved.bytes.contains_key(a));
    }
}

/// A transfer that writes moves nothing; one that skips moves the reader on by its length, at most
/// to the end of the item, and freely where there is no item; one that asks for nothing leaves it
/// where it is.
pub proof fn machine_transfer_skips_the_item(s: FwCfgStateView, gpa: int, ram: RamView)
    requires
        ram.spans(gpa, 16),
        !transfers::asks_read(ram, gpa),
    ensures
        ({
            let done = fw_cfg_state::dma_done(s, gpa, ram);
            let start = start_of(s, gpa, ram);
            let item = item_of(s, gpa, ram);
            let n = transfers::length(ram, gpa);
            &&& !transfers::asks_skip(ram, gpa) ==> done.state.offset == start
            &&& transfers::asks_skip(ram, gpa) && !s.items.contains_key(item)
                ==> done.state.offset == start + n
            &&& transfers::asks_skip(ram, gpa) && s.items.contains_key(item) && start + n
                <= s.items[item].len() ==> done.state.offset == start + n
            &&& transfers::asks_skip(ram, gpa) && s.items.contains_key(item) && start + n
                > s.items[item].len() ==> done.state.offset == s.items[item].len()
        }),
{
    transfers::descriptor_is_its_bytes(ram, gpa);
    machine_transfer_selects_the_named_item(s, gpa, ram);
}

/// A transfer that was carried out has put over the first four bytes of its descriptor the number
/// zero, or one where it asked for nothing but the lowest of its orders, and has changed no memory
/// outside these and the buffer of a read.
pub proof fn machine_transfer_answers_in_its_descriptor(
    s: FwCfgStateView,
    gpa: int,
    ram: RamView,
    a: int,
)
    requires
        fw_cfg_state::dma_done(s, gpa, ram).ok,
    ensures
        ({
            let after = fw_cfg_state::dma_done(s, gpa, ram).ram;
            let at = transfers::buffer(ram, gpa);
            let idle = !transfers::asks_read(ram, gpa) && !transfers::asks_write(ram, gpa)
                && !transfers::asks_skip(ram, gpa);
            &&& idle ==> transfers::number_at(after, gpa, 4) == transfers::orders(ram, gpa) % 2
            &&& !idle ==> transfers::number_at(after, gpa, 4) == 0
            &&& ram.bytes.contains_key(a) && !(gpa <= a < gpa + 4) && !(transfers::asks_read(
                ram,
                gpa,
            ) && at <= a < at + transfers::length(ram, gpa)) ==> after.bytes[a] == ram.bytes[a]
        }),
{
    transfers::descriptor_is_its_bytes(ram, gpa);
    machine_transfer_selects_the_named_item(s, gpa, ram);
    let request = FwCfgDmaRequest::decoded(ram.at(gpa, 16));
    let begun = fw_cfg_state::dma_selected(s, request);
    let data = begun.next_bytes(transfers::length(ram, gpa) as nat);
    let moved = fw_cfg_state::dma_moved(begun, request, ram).ram;
    let word = bytes::be_bytes_u32(fw_cfg_state::dma_status(request));
    span_arrives(ram, transfers::buffer(ram, gpa), data, a);
    span_arrives(moved, gpa, word, a);
    span_arrives(moved, gpa, word, gpa);
    span_arrives(moved, gpa, word, gpa + 1);
    span_arrives(moved, gpa, word, gpa + 2);
    span_arrives(moved, gpa, word, gpa + 3);
    if ram.bytes.contains_key(a) {
        assert(moved.bytes.contains_key(a));
    }
    reveal_with_fuel(transfers::number_at, 5);
}

/// The upper half of an address is kept, with its bytes in the other order.
proof fn upper_half_is_kept(s: FwCfgStateView, a: u32, ram: RamView)
    ensures
        ({
            let w = fw_cfg_state::port_written(s, Port(0x514), AccessWidth::Dword, a as int, ram);
            &&& w.ram == ram && w.result == Ok::<bool, VmError>(true)
            &&& w.state == FwCfgStateView { dma_high: Some(inner::swapped(a)), ..s }
        }),
{
    assert((a as int % 0x1_0000_0000) as u32 == a);
}

/// The lower half of an address, with its bytes in the other order, sets off the transfer at the
/// address that it completes.
proof fn lower_half_sets_off(s: FwCfgStateView, high: u32, b: u32, ram: RamView)
    requires
        s.dma_high == Some(high),
    ensures
        ({
            let w = fw_cfg_state::port_written(s, Port(0x518), AccessWidth::Dword, b as int, ram);
            let address = high * 0x1_0000_0000 + inner::swapped(b);
            let done = fw_cfg_state::dma_done(
                FwCfgStateView { dma_high: None, dma_address: address as u64, ..s },
                address,
                ram,
            );
            &&& w.ram == done.ram && w.state == done.state
            &&& done.ok ==> w.result == Ok::<bool, VmError>(true)
            &&& !done.ok ==> w.result == Err::<bool, VmError>(VmError::InvalidInput)
        }),
{
    assert((b as int % 0x1_0000_0000) as u32 == b);
    let low = inner::swapped(b);
    let address = high * 0x1_0000_0000 + low;
    assert(0 <= address <= u64::MAX);
    assert(s.completed_address(b) == Some(address as u64));
    assert((address as u64) as int == address);
    assert(s.dma_low_written(b) == FwCfgStateView {
        dma_high: None,
        dma_address: address as u64,
        ..s
    });
}

/// A guest that writes the upper half of an address to port 0x514 and then the lower half to port
/// 0x518, with the bytes of either in the other order, sets off the transfer at that address; its
/// failure is the failure of the write. A lower half without an upper half right before it sets off
/// nothing, and neither does an upper half.
pub proof fn address_ports_set_off_the_transfer(
    s: FwCfgStateView,
    high: u32,
    low: u32,
    ram: RamView,
)
    ensures
        ({
            let first = fw_cfg_state::port_written(
                s,
                Port(0x514),
                AccessWidth::Dword,
                inner::swapped(high) as int,
                ram,
            );
            let second = fw_cfg_state::port_written(
                first.state,
                Port(0x518),
                AccessWidth::Dword,
                inner::swapped(low) as int,
                ram,
            );
            let address = high * 0x1_0000_0000 + low;
            let done = fw_cfg_state::dma_done(
                FwCfgStateView { dma_high: None, dma_address: address as u64, ..s },
                address,
                ram,
            );
            &&& first.ram == ram && first.result == Ok::<bool, VmError>(true)
            &&& first.state == FwCfgStateView { dma_high: Some(high), ..s }
            &&& second.ram == done.ram && second.state == done.state
            &&& done.ok ==> second.result == Ok::<bool, VmError>(true)
            &&& !done.ok ==> second.result == Err::<bool, VmError>(VmError::InvalidInput)
        }),
        s.dma_high is None ==> {
            let w = fw_cfg_state::port_written(
                s,
                Port(0x518),
                AccessWidth::Dword,
                low as int,
                ram,
            );
            w.state == s && w.ram == ram && w.result == Ok::<bool, VmError>(true)
        },
{
    transfers::swapping_twice(high);
    transfers::swapping_twice(low);
    let a = inner::swapped(high);
    let b = inner::swapped(low);
    upper_half_is_kept(s, a, ram);
    lower_half_sets_off(FwCfgStateView { dma_high: Some(high), ..s }, high, b, ram);
}

/// The reader of the machine is past the end of the selected item.
pub open spec fn past_item(s: FwCfgStateView) -> bool {
    s.items.contains_key(s.selector) && s.offset > s.items[s.selector].len()
}

/// A transfer of the machine can be carried out unless it reads on where the reader is past the end
/// of the item, or skips where there is no item and would move the reader further than can be
/// counted.
pub proof fn machine_transfer_fits_but_for_far_readers(s: FwCfgStateView, gpa: int, ram: RamView)
    ensures
        fw_cfg_state::dma_fits(s, gpa, ram) <==> !(ram.spans(gpa, 16) && (transfers::asks_read(
            ram,
            gpa,
        ) && !transfers::asks_select(ram, gpa) && past_item(s) || transfers::asks_skip(ram, gpa)
            && !s.items.contains_key(item_of(s, gpa, ram)) && start_of(s, gpa, ram)
            + transfers::length(ram, gpa) > usize::MAX)),
{
    if ram.spans(gpa, 16) {
        transfers::descriptor_is_its_bytes(ram, gpa);
    }
}

/// Every exit of a machine can be handled, but on x86 for a read of the data port where the reader
/// is past the end of the item, and for a write of the lower half of an address that sets off a
/// transfer which cannot be carried out.
pub proof fn exits_fit_but_for_far_readers(vm: VmView, exit: VmExit, ram: RamView)
    ensures
        vm.target.arch != Arch::X86_64 ==> vm.exit_fits(exit, ram),
        !(exit is IoRead) && !(exit is IoWrite) ==> vm.exit_fits(exit, ram),
        exit matches VmExit::IoRead { port, width } ==> (vm.target.arch == Arch::X86_64 ==> (
        vm.exit_fits(exit, ram) <==> !(port.0 == 0x511 && past_item(vm.fw_cfg)))),
        exit matches VmExit::IoWrite { port, width, data } ==> (port.0 != 0x518 || width
            != AccessWidth::Dword || vm.fw_cfg.dma_high is None ==> vm.exit_fits(exit, ram)),
        exit matches VmExit::IoWrite { port, width, data } ==> (vm.target.arch == Arch::X86_64
            && port.0 == 0x518 && width == AccessWidth::Dword && vm.fw_cfg.dma_high is Some ==> {
            let low = (data as int % 0x1_0000_0000) as u32;
            let address = 0x1_0000_0000 * vm.fw_cfg.dma_high.unwrap() + inner::swapped(low);
            vm.exit_fits(exit, ram) <==> fw_cfg_state::dma_fits(
                vm.fw_cfg.dma_low_written(low),
                address,
                ram,
            )
        }),
{
}

} // verus!
