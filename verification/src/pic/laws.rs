//! What holds of the interrupt controllers over every state and over several operations.

use vstd::prelude::*;

use crate::pic::chip;
use crate::pic::chip::ChipView;
use crate::pic::lines;
use crate::pic::pair::PairView;

verus! {

/// The rank of a line when line `add` has the highest priority: 0 is the highest.
pub open spec fn rank(line: int, add: int) -> int {
    (line - add) % 8
}

/// The search for the best rank finds the line of the set with the lowest rank.
pub proof fn best_rank_bounds_every_line(s: Set<int>, add: int, line: int)
    requires
        0 <= add < 8,
        0 <= line < 8,
        s.contains(line),
    ensures
        chip::best_rank(s, add, 0) <= rank(line, add),
{
    chip::best_rank_is_first(s, add, 0);
    assert(chip::line_of_rank(add, rank(line, add)) == line);
}

/// The line that a chip delivers requests an interrupt, is not masked, comes before every other
/// such line, and before every line in service that holds others back.
pub proof fn delivered_line_is_due(c: ChipView)
    requires
        c.wf(),
    ensures
        c.irq() matches Some(line) ==> {
            &&& 0 <= line < 8
            &&& c.irr.contains(line) && !c.imr.contains(line)
            &&& forall|other: int|
                0 <= other < 8 && #[trigger] c.pending().contains(other) ==> rank(
                    line,
                    c.priority_add,
                ) <= rank(other, c.priority_add)
            &&& forall|held: int|
                0 <= held < 8 && #[trigger] c.holding().contains(held) ==> rank(
                    line,
                    c.priority_add,
                ) < rank(held, c.priority_add)
        },
{
    let add = c.priority_add;
    chip::best_rank_is_first(c.pending(), add, 0);
    chip::best_rank_is_first(c.holding(), add, 0);
    let best = chip::best_rank(c.pending(), add, 0);
    if c.irq() is Some {
        let line = c.irq().unwrap();
        assert(rank(line, add) == best);
        assert forall|other: int| 0 <= other < 8 && #[trigger] c.pending().contains(other) implies
            rank(line, add) <= rank(other, add) by {
            best_rank_bounds_every_line(c.pending(), add, other);
        }
        assert forall|held: int| 0 <= held < 8 && #[trigger] c.holding().contains(held) implies
            rank(line, add) < rank(held, add) by {
            best_rank_bounds_every_line(c.holding(), add, held);
        }
    }
}

/// A chip delivers an interrupt whenever some line requests one, is not masked, and comes before
/// every line in service that holds others back.
pub proof fn due_line_is_delivered(c: ChipView, line: int)
    requires
        c.wf(),
        0 <= line < 8,
        c.irr.contains(line),
        !c.imr.contains(line),
        forall|held: int|
            0 <= held < 8 && #[trigger] c.holding().contains(held) ==> rank(line, c.priority_add)
                < rank(held, c.priority_add),
    ensures
        c.irq() is Some,
{
    let add = c.priority_add;
    assert(c.pending().contains(line));
    best_rank_bounds_every_line(c.pending(), add, line);
    chip::best_rank_is_first(c.holding(), add, 0);
    let held_rank = chip::best_rank(c.holding(), add, 0);
    if held_rank < 8 {
        let held = chip::line_of_rank(add, held_rank);
        assert(c.holding().contains(held));
        assert(rank(held, add) == held_rank);
    }
}

/// While an interrupt is in service, and no special mode is on, the chip delivers no interrupt of
/// the same or of a lower priority.
pub proof fn service_holds_lower_lines_back(c: ChipView, line: int)
    requires
        c.wf(),
        0 <= line < 8,
        c.isr.contains(line),
        !c.special_mask,
        !(c.master && c.special_fully_nested_mode),
    ensures
        c.irq() matches Some(next) ==> rank(next, c.priority_add) < rank(line, c.priority_add),
{
    delivered_line_is_due(c);
    assert(c.holding().contains(line));
}

/// A line that is not level triggered keeps its request after it has gone low again, and makes no
/// new one while it stays high.
pub proof fn edge_is_latched(c: ChipView, line: int)
    requires
        !c.level_triggered(line),
        !c.last_irr.contains(line),
    ensures
        c.line_set(line, true).line_set(line, false).irr == c.irr.insert(line),
        c.line_set(line, true).acknowledged(line).line_set(line, true).irr == c.irr.insert(
            line,
        ).remove(line),
{
}

/// A level-triggered line requests an interrupt exactly while it is high, acknowledged or not.
pub proof fn level_follows_line(c: ChipView, line: int, high: bool)
    requires
        c.level_triggered(line),
    ensures
        c.line_set(line, high).irr.contains(line) == high,
        c.line_set(line, high).acknowledged(line).irr.contains(line) == high,
{
}

/// The end-of-interrupt word without a line ends the interrupt of the highest priority in
/// service and no other.
pub proof fn end_of_interrupt_ends_highest(c: ChipView)
    requires
        c.wf(),
        exists|line: int| 0 <= line < 8 && #[trigger] c.isr.contains(line),
    ensures
        exists|line: int|
            {
                &&& 0 <= line < 8
                &&& #[trigger] c.isr.contains(line)
                &&& c.commanded(0x20).isr == c.isr.remove(line)
                &&& forall|other: int|
                    0 <= other < 8 && #[trigger] c.isr.contains(other) ==> rank(
                        line,
                        c.priority_add,
                    ) <= rank(other, c.priority_add)
            },
        c.commanded(0x20).irr == c.irr,
        c.commanded(0x20).imr == c.imr,
        c.commanded(0x20).priority_add == c.priority_add,
{
    let add = c.priority_add;
    let some = choose|line: int| 0 <= line < 8 && #[trigger] c.isr.contains(line);
    best_rank_bounds_every_line(c.isr, add, some);
    chip::best_rank_is_first(c.isr, add, 0);
    let best = chip::best_rank(c.isr, add, 0);
    let line = chip::line_of_rank(add, best);
    assert(!lines::bit(0x20, 4) && !lines::bit(0x20, 3)) by {
        assert(0x20u8 & (1u8 << 4u8) == 0 && 0x20u8 & (1u8 << 3u8) == 0) by (bit_vector);
    }
    assert(c.commanded(0x20) == c.ended(false));
    assert(rank(line, add) == best);
    assert forall|other: int| 0 <= other < 8 && #[trigger] c.isr.contains(other) implies rank(
        line,
        add,
    ) <= rank(other, add) by {
        best_rank_bounds_every_line(c.isr, add, other);
    }
    assert(c.isr.contains(line));
}

/// Reading a vector behind the back of the chips puts nothing into service.
pub proof fn taken_vector_is_not_in_service(p: PairView)
    ensures
        p.vector_taken().master.isr == p.master.isr,
        p.vector_taken().slave.isr == p.slave.isr,
{
}

/// A line whose vector was taken behind the back of the chips can be delivered again without an
/// end of interrupt: when it goes low and high again, the chip delivers what it delivered before.
pub proof fn taken_line_is_delivered_again(c: ChipView, line: int)
    requires
        c.irq() == Some(line),
        c.irr.contains(line),
        !c.level_triggered(line),
    ensures
        (ChipView { irr: c.irr.remove(line), ..c }).line_set(line, false).line_set(
            line,
            true,
        ).irq() == Some(line),
{
    let again = (ChipView { irr: c.irr.remove(line), ..c }).line_set(line, false).line_set(
        line,
        true,
    );
    assert(again.irr =~= c.irr);
    assert(again.pending() == c.pending());
    assert(again.holding() == c.holding());
}

/// Reading and acknowledging a vector puts its line into service, unless interrupts end by
/// themselves, and a line that is not level triggered no longer requests one. The vector lies in
/// the range of eight vectors of its chip.
pub proof fn acknowledged_vector_is_in_service(p: PairView)
    requires
        p.wf(),
        p.master.irq() is Some,
    ensures
        ({
            let line = p.master.irq().unwrap();
            &&& !p.master.auto_eoi ==> p.vector_acknowledged().master.isr == p.master.isr.insert(
                line,
            )
            &&& line == 2 && !p.slave.auto_eoi ==> p.vector_acknowledged().slave.isr
                == p.slave.isr.insert(p.slave_line())
            &&& line != 2 ==> p.vector_acknowledged().slave == p.slave
            &&& line != 2 && !p.master.level_triggered(line)
                ==> !p.vector_acknowledged().master.irr.contains(line)
            &&& line != 2 ==> p.master.irq_base <= p.vector().unwrap() < p.master.irq_base + 8
            &&& line == 2 ==> p.slave.irq_base <= p.vector().unwrap() < p.slave.irq_base + 8
        }),
{
    delivered_line_is_due(p.master);
    delivered_line_is_due(p.slave);
}

/// After every operation that can change what the slave has to deliver, line 2 of the master is
/// high exactly when the slave has an interrupt to deliver.
pub proof fn cascade_follows_slave(p: PairView, line: int, high: bool, port: u16, value: u8)
    ensures
        ({
            let q = p.line_set(line, high);
            q.master.last_irr.contains(2) == (q.slave.irq() is Some)
        }),
        ({
            let q = p.port_written(port, value);
            q.master.last_irr.contains(2) == (q.slave.irq() is Some)
        }),
        p.master.irq() is Some ==> ({
            let q = p.vector_acknowledged();
            q.master.last_irr.contains(2) == (q.slave.irq() is Some)
        }),
        p.master.irq() is Some ==> ({
            let q = p.vector_taken();
            q.master.last_irr.contains(2) == (q.slave.irq() is Some)
        }),
{
}

/// Lines beyond the sixteen of the pair do nothing of their own.
pub proof fn other_lines_are_ignored(p: PairView, line: int, high: bool)
    requires
        line >= 16,
    ensures
        p.line_set(line, high) == p.cascaded(),
        p.line_set(line, high).slave == p.slave,
{
}

/// A masked line is never delivered.
pub proof fn masked_line_is_not_delivered(c: ChipView, line: int)
    requires
        c.wf(),
        c.imr.contains(line),
    ensures
        c.irq() != Some(line),
{
    delivered_line_is_due(c);
}

/// A whole initialization, of three words after the first one, leaves the chip ready, with the
/// vector base of its second word, nothing masked, nothing in service, and the modes of its
/// fourth word.
pub proof fn initialization_sets_base_and_modes(c: ChipView, base: u8, third: u8, fourth: u8)
    ensures
        ({
            let d = c.commanded(0x11).data_written(base).data_written(third).data_written(fourth);
            &&& d.init_state == 0
            &&& d.irq_base == (base as int / 8) * 8
            &&& d.imr == Set::<int>::empty()
            &&& d.isr == Set::<int>::empty()
            &&& d.irr == c.irr.intersect(c.elcr)
            &&& d.auto_eoi == lines::bit(fourth, 1)
            &&& d.special_fully_nested_mode == lines::bit(fourth, 4)
            &&& d.priority_add == 0
        }),
{
    assert(lines::bit(0x11, 4) && lines::bit(0x11, 0) && !lines::bit(0x11, 1) && !lines::bit(
        0x11,
        3,
    )) by {
        assert(0x11u8 & (1u8 << 4u8) != 0 && 0x11u8 & (1u8 << 0u8) != 0 && 0x11u8 & (1u8 << 1u8)
            == 0 && 0x11u8 & (1u8 << 3u8) == 0) by (bit_vector);
    }
}

/// What is written to the mask after initialization is what the data port reads back.
pub proof fn mask_reads_back(c: ChipView, value: u8)
    requires
        c.init_state == 0,
        !c.poll,
    ensures
        c.data_written(value).port_read(false) == (value, c.data_written(value)),
{
    lines::byte_of_lines(value);
}

} // verus!
