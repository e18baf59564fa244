//! Which interrupt the chips deliver, with which vector, and what each word that a driver writes
//! does, bit by bit.

use vstd::prelude::*;

use crate::pic::chip;
use crate::pic::chip::ChipView;
use crate::pic::laws;
use crate::pic::lines;
use crate::pic::pair::PairView;

verus! {

/// Bit `i` of the byte, counted from the least significant one.
pub open spec fn digit(value: u8, i: int) -> bool {
    if i == 0 {
        value % 2 == 1
    } else if i == 1 {
        value / 2 % 2 == 1
    } else if i == 2 {
        value / 4 % 2 == 1
    } else if i == 3 {
        value / 8 % 2 == 1
    } else if i == 4 {
        value / 16 % 2 == 1
    } else if i == 5 {
        value / 32 % 2 == 1
    } else if i == 6 {
        value / 64 % 2 == 1
    } else if i == 7 {
        value / 128 % 2 == 1
    } else {
        false
    }
}

/// The bits of a register are its binary digits.
pub proof fn bits_are_digits(value: u8)
    ensures
        lines::bit(value, 0) == digit(value, 0),
        lines::bit(value, 1) == digit(value, 1),
        lines::bit(value, 2) == digit(value, 2),
        lines::bit(value, 3) == digit(value, 3),
        lines::bit(value, 4) == digit(value, 4),
        lines::bit(value, 5) == digit(value, 5),
        lines::bit(value, 6) == digit(value, 6),
        lines::bit(value, 7) == digit(value, 7),
        forall|i: int| #[trigger] lines::lines(value).contains(i) <==> digit(value, i),
{
    assert((value & (1u8 << 0u8) != 0) == (value % 2 == 1) && (value & (1u8 << 1u8) != 0) == (value
        / 2 % 2 == 1) && (value & (1u8 << 2u8) != 0) == (value / 4 % 2 == 1) && (value & (1u8
        << 3u8) != 0) == (value / 8 % 2 == 1) && (value & (1u8 << 4u8) != 0) == (value / 16 % 2
        == 1) && (value & (1u8 << 5u8) != 0) == (value / 32 % 2 == 1) && (value & (1u8 << 6u8)
        != 0) == (value / 64 % 2 == 1) && (value & (1u8 << 7u8) != 0) == (value / 128 % 2 == 1))
        by (bit_vector);
}

/// The byte of a set of lines has the digits of the lines.
pub proof fn byte_has_the_digits_of_its_lines(s: Set<int>, i: int)
    requires
        0 <= i < 8,
    ensures
        digit(lines::byte_of(s), i) == s.contains(i),
{
}

/// The line requests an interrupt and is not masked.
pub open spec fn requested(c: ChipView, line: int) -> bool {
    0 <= line < 8 && c.irr.contains(line) && !c.imr.contains(line)
}

/// The interrupt of the line is in service and holds lines of the same or a lower priority back:
/// not where the special mask mode is on and the line is masked, nor where it is the slave's line
/// of a master in special fully nested mode.
pub open spec fn holds_back(c: ChipView, line: int) -> bool {
    &&& 0 <= line < 8 && c.isr.contains(line)
    &&& !(c.special_mask && c.imr.contains(line))
    &&& !(c.master && c.special_fully_nested_mode && line == 2)
}

/// The line is due: it requests an interrupt, is not masked, no such line comes before it, and it
/// comes before every line that holds others back.
pub open spec fn due(c: ChipView, line: int) -> bool {
    &&& requested(c, line)
    &&& forall|other: int|
        #[trigger] requested(c, other) ==> laws::rank(line, c.priority_add) <= laws::rank(
            other,
            c.priority_add,
        )
    &&& forall|held: int|
        #[trigger] holds_back(c, held) ==> laws::rank(line, c.priority_add) < laws::rank(
            held,
            c.priority_add,
        )
}

/// A chip delivers the line that is due, and none where no line is.
pub proof fn chip_delivers_the_due_line(c: ChipView, line: int)
    requires
        c.wf(),
    ensures
        c.irq() == Some(line) <==> due(c, line),
        c.irq() is None ==> !due(c, line),
{
    let add = c.priority_add;
    laws::delivered_line_is_due(c);
    assert forall|k: int| 0 <= k < 8 implies #[trigger] requested(c, k) == c.pending().contains(k) by {}
    assert forall|k: int| 0 <= k < 8 implies #[trigger] holds_back(c, k) == c.holding().contains(
        k,
    ) by {}
    if let Some(found) = c.irq() {
        assert(requested(c, found));
        assert forall|other: int| #[trigger] requested(c, other) implies laws::rank(found, add)
            <= laws::rank(other, add) by {
            assert(c.pending().contains(other));
        }
        assert forall|held: int| #[trigger] holds_back(c, held) implies laws::rank(found, add)
            < laws::rank(held, add) by {
            assert(c.holding().contains(held));
        }
        assert(due(c, found));
        if due(c, line) {
            assert(laws::rank(line, add) == laws::rank(found, add));
            assert(chip::line_of_rank(add, laws::rank(line, add)) == line);
            assert(chip::line_of_rank(add, laws::rank(found, add)) == found);
        }
    }
    if due(c, line) {
        assert forall|held: int| 0 <= held < 8 && #[trigger] c.holding().contains(held) implies
            laws::rank(line, add) < laws::rank(held, add) by {
            assert(holds_back(c, held));
        }
        laws::due_line_is_delivered(c, line);
    }
}

/// The vector that is delivered is that of the line that is due: the base of its chip and the
/// number of the line. Line 2 of the master stands for the slave: there it is the line that is due
/// on the slave, or line 7 of the slave where none is any more. No vector is delivered where no
/// line of the master is due.
pub proof fn vector_is_base_plus_line(p: PairView, k: int, j: int)
    requires
        p.wf(),
    ensures
        due(p.master, k) && k != 2 ==> p.vector() is Some && p.vector().unwrap()
            == p.master.irq_base + k,
        due(p.master, 2) && due(p.slave, j) ==> p.vector() is Some && p.vector().unwrap()
            == p.slave.irq_base + j,
        due(p.master, 2) && (forall|m: int| !#[trigger] due(p.slave, m)) ==> p.vector() is Some
            && p.vector().unwrap() == p.slave.irq_base + 7,
        (forall|m: int| !#[trigger] due(p.master, m)) ==> p.vector() is None,
{
    chip_delivers_the_due_line(p.master, k);
    chip_delivers_the_due_line(p.master, 2);
    chip_delivers_the_due_line(p.slave, j);
    if let Some(m) = p.master.irq() {
        chip_delivers_the_due_line(p.master, m);
    }
    if let Some(m) = p.slave.irq() {
        chip_delivers_the_due_line(p.slave, m);
    }
}

/// Different lines of one chip give different vectors: two pairs with the same bases that deliver
/// the same vector for a line of the slave, or for a line of the master other than 2, deliver the
/// same line.
pub proof fn different_lines_have_different_vectors(p: PairView, q: PairView, k: int, j: int)
    requires
        p.wf(),
        q.wf(),
        p.master.irq_base == q.master.irq_base,
        p.slave.irq_base == q.slave.irq_base,
        p.vector() == q.vector(),
    ensures
        due(p.master, 2) && due(q.master, 2) && due(p.slave, k) && due(q.slave, j) ==> k == j,
        due(p.master, k) && due(q.master, j) && k != 2 && j != 2 ==> k == j,
{
    vector_is_base_plus_line(p, k, k);
    vector_is_base_plus_line(q, j, j);
}

/// The chip is at rest: it requests nothing and has nothing in service.
pub open spec fn at_rest(c: ChipView) -> bool {
    c.irr == Set::<int>::empty() && c.isr == Set::<int>::empty()
}

/// Each of the sixteen lines, when it goes high on a pair at rest that does not mask it, is
/// delivered with a vector of its own: a line of the master with the master's base and its number,
/// and a line of the slave, unless line 2 of the master is masked, with the slave's base and its
/// number on the slave.
pub proof fn raised_line_is_delivered(p: PairView, line: int)
    requires
        p.wf(),
        at_rest(p.master),
        at_rest(p.slave),
        0 <= line < 16,
        line != 2,
        line < 8 ==> !p.master.imr.contains(line) && !p.master.last_irr.contains(line),
        line >= 8 ==> !p.slave.imr.contains(line - 8) && !p.slave.last_irr.contains(line - 8),
        line >= 8 ==> !p.master.imr.contains(2) && !p.master.last_irr.contains(2),
    ensures
        ({
            let q = p.line_set(line, true);
            &&& q.vector() is Some
            &&& line < 8 ==> q.vector().unwrap() == p.master.irq_base + line
            &&& line >= 8 ==> q.vector().unwrap() == p.slave.irq_base + (line - 8)
        }),
{
    let q = p.line_set(line, true);
    assert(q.wf());
    if line < 8 {
        assert forall|k: int| !#[trigger] due(q.slave, k) by {}
        if let Some(m) = q.slave.irq() {
            chip_delivers_the_due_line(q.slave, m);
        }
        assert(q.master.irr =~= set![line]);
        assert(due(q.master, line));
        vector_is_base_plus_line(q, line, 0);
    } else {
        let k = line - 8;
        assert(q.slave.irr =~= set![k]);
        assert(due(q.slave, k));
        chip_delivers_the_due_line(q.slave, k);
        assert(q.master.irr =~= set![2int]);
        assert(due(q.master, 2));
        vector_is_base_plus_line(q, 2, k);
    }
}

/// Setting a line touches no other line, and of its chip nothing but whether the line requests an
/// interrupt and whether it was high.
pub proof fn setting_a_line_touches_no_other(c: ChipView, line: int, high: bool, other: int)
    ensures
        ({
            let d = c.line_set(line, high);
            &&& other != line ==> d.irr.contains(other) == c.irr.contains(other)
            &&& other != line ==> d.last_irr.contains(other) == c.last_irr.contains(other)
            &&& d.last_irr.contains(line) == high
            &&& d == ChipView { irr: d.irr, last_irr: d.last_irr, ..c }
            &&& high && (c.ltim || c.elcr.contains(line) || !c.last_irr.contains(line))
                ==> d.irr.contains(line)
            &&& !high && (c.ltim || c.elcr.contains(line)) ==> !d.irr.contains(line)
            &&& !c.ltim && !c.elcr.contains(line) && (!high || c.last_irr.contains(line))
                ==> d.irr.contains(line) == c.irr.contains(line)
        }),
{
}

/// The sixteen lines are lines 0 to 7 of the master and, from line 8 on, lines 0 to 7 of the slave:
/// setting one of them sets that line of that chip, and then line 2 of the master by whether a line
/// of the slave is due.
pub proof fn lines_belong_to_chips(p: PairView, line: int, high: bool)
    requires
        p.wf(),
    ensures
        ({
            let q = p.line_set(line, high);
            &&& 0 <= line < 8 ==> q.slave == p.slave && q.master == p.master.line_set(
                line,
                high,
            ).line_set(2, exists|k: int| #[trigger] due(p.slave, k))
            &&& 8 <= line < 16 ==> q.slave == p.slave.line_set(line - 8, high) && q.master
                == p.master.line_set(2, exists|k: int| #[trigger] due(q.slave, k))
            &&& q.wf()
        }),
{
    let q = p.line_set(line, high);
    assert(q.slave.wf());
    if let Some(m) = q.slave.irq() {
        chip_delivers_the_due_line(q.slave, m);
        assert(due(q.slave, m));
    }
    if exists|k: int| #[trigger] due(q.slave, k) {
        let k = choose|k: int| #[trigger] due(q.slave, k);
        chip_delivers_the_due_line(q.slave, k);
    }
}

/// Acknowledging an interrupt puts its line into service, unless interrupts end by themselves, and
/// withdraws its request, unless the line is level triggered. Where interrupts end by themselves
/// and priorities rotate then, the line has the lowest priority afterwards; otherwise priorities
/// stay. No other line and nothing else of the chip changes.
pub proof fn acknowledging_touches_one_line(c: ChipView, line: int, other: int)
    requires
        c.wf(),
        0 <= line < 8,
    ensures
        ({
            let d = c.acknowledged(line);
            &&& c.auto_eoi ==> d.isr == c.isr
            &&& !c.auto_eoi ==> d.isr.contains(line)
            &&& c.ltim || c.elcr.contains(line) ==> d.irr == c.irr
            &&& !c.ltim && !c.elcr.contains(line) ==> !d.irr.contains(line)
            &&& other != line ==> d.isr.contains(other) == c.isr.contains(other)
            &&& other != line ==> d.irr.contains(other) == c.irr.contains(other)
            &&& c.auto_eoi && c.rotate_on_auto_eoi ==> laws::rank(line, d.priority_add) == 7
            &&& !(c.auto_eoi && c.rotate_on_auto_eoi) ==> d.priority_add == c.priority_add
            &&& 0 <= d.priority_add < 8
            &&& d == ChipView { isr: d.isr, irr: d.irr, priority_add: d.priority_add, ..c }
        }),
{
}

/// Reading and acknowledging a vector acknowledges the line that is due on the master and, where
/// that is line 2, the line that is due on the slave as well, and nothing else but the cascade.
/// Reading it behind the back of the chips withdraws the same requests, level triggered or not, and
/// puts nothing into service. Where no line is due, neither changes anything.
pub proof fn vector_is_acknowledged_on_its_chip(p: PairView, k: int, j: int)
    requires
        p.wf(),
    ensures
        due(p.master, k) && k != 2 ==> {
            &&& p.vector_acknowledged().slave == p.slave
            &&& p.vector_acknowledged() == (PairView {
                master: p.master.acknowledged(k),
                ..p
            }).cascaded()
            &&& p.vector_taken().slave == p.slave
            &&& p.vector_taken() == (PairView {
                master: ChipView { irr: p.master.irr.remove(k), ..p.master },
                ..p
            }).cascaded()
        },
        due(p.master, 2) && due(p.slave, j) ==> {
            &&& p.vector_acknowledged() == (PairView {
                master: p.master.acknowledged(2),
                slave: p.slave.acknowledged(j),
            }).cascaded()
            &&& p.vector_taken() == (PairView {
                master: ChipView { irr: p.master.irr.remove(2), ..p.master },
                slave: ChipView { irr: p.slave.irr.remove(j), ..p.slave },
            }).cascaded()
        },
        (forall|m: int| !#[trigger] due(p.master, m)) ==> p.vector_acknowledged() == p
            && p.vector_taken() == p,
{
    chip_delivers_the_due_line(p.master, k);
    chip_delivers_the_due_line(p.master, 2);
    chip_delivers_the_due_line(p.slave, j);
    if let Some(m) = p.master.irq() {
        chip_delivers_the_due_line(p.master, m);
    }
}

/// The cascade sets line 2 of the master by whether a line of the slave is due, and changes
/// nothing else.
pub proof fn cascade_sets_line_two(p: PairView)
    requires
        p.wf(),
    ensures
        p.cascaded().slave == p.slave,
        p.cascaded().master == p.master.line_set(2, exists|k: int| #[trigger] due(p.slave, k)),
{
    if let Some(m) = p.slave.irq() {
        chip_delivers_the_due_line(p.slave, m);
        assert(due(p.slave, m));
    }
    if exists|k: int| #[trigger] due(p.slave, k) {
        let k = choose|k: int| #[trigger] due(p.slave, k);
        chip_delivers_the_due_line(p.slave, k);
    }
}

/// A command word whose bit 4 is set starts an initialization: bits 0, 1 and 3 say whether a fourth
/// word comes, whether there is no third one, and whether every line is level triggered. Masks,
/// lines in service and modes are cleared, line 0 has the highest priority, the vectors start at
/// zero, and of the requests those of lines stay that are level triggered one by one.
pub proof fn first_word_starts_initialization(c: ChipView, value: u8, line: int)
    requires
        digit(value, 4),
    ensures
        ({
            let d = c.commanded(value);
            &&& d.init_state == 1
            &&& d.init4 == digit(value, 0)
            &&& d.single_mode == digit(value, 1)
            &&& d.ltim == digit(value, 3)
            &&& !d.imr.contains(line) && !d.isr.contains(line) && !d.last_irr.contains(line)
            &&& d.irr.contains(line) == (c.irr.contains(line) && c.elcr.contains(line))
            &&& d.priority_add == 0 && d.irq_base == 0
            &&& !d.poll && !d.special_mask && !d.read_reg_select && !d.auto_eoi
                && !d.rotate_on_auto_eoi && !d.special_fully_nested_mode
            &&& d.elcr == c.elcr && d.elcr_mask == c.elcr_mask && d.master == c.master
        }),
{
    bits_are_digits(value);
}

/// A command word with bit 4 clear and bit 3 set is a mode word: bit 2 asks for a poll, bit 1 says
/// that bit 0 chooses the lines in service or the requests to be read, and bit 6 says that bit 5
/// switches the special mask mode. What it does not speak of stays.
pub proof fn mode_word_sets_modes(c: ChipView, value: u8)
    requires
        !digit(value, 4),
        digit(value, 3),
    ensures
        ({
            let d = c.commanded(value);
            &&& d.poll == (c.poll || digit(value, 2))
            &&& digit(value, 1) ==> d.read_reg_select == digit(value, 0)
            &&& !digit(value, 1) ==> d.read_reg_select == c.read_reg_select
            &&& digit(value, 6) ==> d.special_mask == digit(value, 5)
            &&& !digit(value, 6) ==> d.special_mask == c.special_mask
            &&& d == ChipView {
                poll: d.poll,
                read_reg_select: d.read_reg_select,
                special_mask: d.special_mask,
                ..c
            }
        }),
{
    bits_are_digits(value);
}

/// The line in service that no other line in service comes before.
pub open spec fn first_in_service(c: ChipView, line: int) -> bool {
    &&& 0 <= line < 8 && c.isr.contains(line)
    &&& forall|other: int|
        0 <= other < 8 && #[trigger] c.isr.contains(other) ==> laws::rank(line, c.priority_add)
            <= laws::rank(other, c.priority_add)
}

/// Ending the first interrupt in service ends that one, and none where none is in service.
proof fn first_one_ends(c: ChipView, rotate: bool, line: int)
    requires
        c.wf(),
    ensures
        first_in_service(c, line) ==> c.ended(rotate) == (ChipView {
            isr: c.isr.remove(line),
            priority_add: if rotate {
                (line + 1) % 8
            } else {
                c.priority_add
            },
            ..c
        }),
        (forall|k: int| 0 <= k < 8 ==> !#[trigger] c.isr.contains(k)) ==> c.ended(rotate) == c,
        c.ended(rotate) == (ChipView {
            isr: c.ended(rotate).isr,
            priority_add: c.ended(rotate).priority_add,
            ..c
        }),
        0 <= c.ended(rotate).priority_add < 8,
        !rotate ==> c.ended(rotate).priority_add == c.priority_add,
{
    let add = c.priority_add;
    chip::best_rank_is_first(c.isr, add, 0);
    let best = chip::best_rank(c.isr, add, 0);
    if first_in_service(c, line) {
        laws::best_rank_bounds_every_line(c.isr, add, line);
        let found = chip::line_of_rank(add, best);
        assert(c.isr.contains(found));
        assert(laws::rank(found, add) == best);
        assert(laws::rank(line, add) == best);
        assert(found == line);
    }
    if forall|k: int| 0 <= k < 8 ==> !#[trigger] c.isr.contains(k) {
        if best < 8 {
            assert(c.isr.contains(chip::line_of_rank(add, best)));
        }
    }
}

/// A line that is followed by the line of the highest priority has the lowest one.
proof fn rotated_line_is_last(line: int)
    requires
        0 <= line < 8,
    ensures
        laws::rank(line, (line + 1) % 8) == 7,
        0 <= (line + 1) % 8 < 8,
{
}

/// A command word with bits 3 and 4 clear ends interrupts: bit 5 says that one ends, bit 6 that it
/// is the one of the line in the low three bits and not the first one in service, and bit 7 that
/// the line has the lowest priority afterwards. Without bit 5, bit 6 and bit 7 together give the
/// line the lowest priority, and without bit 5 and bit 6, bit 7 says whether priorities rotate when
/// interrupts end by themselves.
pub proof fn end_word_ends_interrupts(c: ChipView, value: u8, line: int, other: int)
    requires
        c.wf(),
        !digit(value, 4),
        !digit(value, 3),
    ensures
        ({
            let d = c.commanded(value);
            let named = value as int % 8;
            let ends = digit(value, 5);
            let specific = digit(value, 6);
            let rotates = digit(value, 7);
            &&& d == ChipView {
                isr: d.isr,
                priority_add: d.priority_add,
                rotate_on_auto_eoi: d.rotate_on_auto_eoi,
                ..c
            }
            &&& ends && specific ==> !d.isr.contains(named) && (other != named ==> d.isr.contains(
                other,
            ) == c.isr.contains(other))
            &&& ends && !specific && first_in_service(c, line) ==> !d.isr.contains(line) && (other
                != line ==> d.isr.contains(other) == c.isr.contains(other))
            &&& ends && !specific && (forall|k: int| 0 <= k < 8 ==> !#[trigger] c.isr.contains(k))
                ==> d == c
            &&& !ends ==> d.isr == c.isr
            &&& rotates && specific ==> laws::rank(named, d.priority_add) == 7
            &&& rotates && ends && !specific && first_in_service(c, line) ==> laws::rank(
                line,
                d.priority_add,
            ) == 7
            &&& !rotates || (!ends && !specific) ==> d.priority_add == c.priority_add
            &&& 0 <= d.priority_add < 8
            &&& !ends && !specific ==> d.rotate_on_auto_eoi == rotates
            &&& ends || specific ==> d.rotate_on_auto_eoi == c.rotate_on_auto_eoi
        }),
{
    bits_are_digits(value);
    first_one_ends(c, false, line);
    first_one_ends(c, true, line);
    rotated_line_is_last(value as int % 8);
    if 0 <= line < 8 {
        rotated_line_is_last(line);
    }
    let command = value / 32;
    assert(command == (if digit(value, 5) {
        1int
    } else {
        0
    }) + (if digit(value, 6) {
        2int
    } else {
        0
    }) + (if digit(value, 7) {
        4int
    } else {
        0
    }));
    assert(c.commanded(value) == c.end_word(value));
    if command == 0 {
    } else if command == 1 {
    } else if command == 2 {
    } else if command == 3 {
    } else if command == 4 {
    } else if command == 5 {
    } else if command == 6 {
    } else {
        assert(command == 7);
    }
}

/// After initialization a word to the data port is the mask: a line is masked exactly where its
/// bit is set. During initialization the words are, in turn, the vectors' base, which is taken down
/// to a multiple of eight, the third word, unless there is none, and the fourth word, where one
/// comes, whose bit 1 says that interrupts end by themselves and whose bit 4 switches the special
/// fully nested mode; none of them touches the mask.
pub proof fn data_words_mask_and_initialize(c: ChipView, value: u8, line: int)
    requires
        c.wf(),
    ensures
        ({
            let d = c.data_written(value);
            &&& c.init_state == 0 ==> {
                &&& d.imr.contains(line) == digit(value, line)
                &&& d == ChipView { imr: d.imr, ..c }
            }
            &&& c.init_state == 1 ==> {
                &&& d.irq_base % 8 == 0 && d.irq_base <= value < d.irq_base + 8
                &&& !c.single_mode ==> d.init_state == 2
                &&& c.single_mode && c.init4 ==> d.init_state == 3
                &&& c.single_mode && !c.init4 ==> d.init_state == 0
                &&& d == ChipView { irq_base: d.irq_base, init_state: d.init_state, ..c }
            }
            &&& c.init_state == 2 ==> {
                &&& c.init4 ==> d.init_state == 3
                &&& !c.init4 ==> d.init_state == 0
                &&& d == ChipView { init_state: d.init_state, ..c }
            }
            &&& c.init_state == 3 ==> {
                &&& d.init_state == 0
                &&& d.auto_eoi == digit(value, 1)
                &&& d.special_fully_nested_mode == digit(value, 4)
                &&& d == ChipView {
                    init_state: d.init_state,
                    auto_eoi: d.auto_eoi,
                    special_fully_nested_mode: d.special_fully_nested_mode,
                    ..c
                }
            }
        }),
{
    bits_are_digits(value);
}

/// A read of the data port shows which lines are masked, and a read of the command port which lines
/// request an interrupt or, where it was asked for, which are in service. After a poll was asked
/// for, the next read of either port shows the line that is due, with bit 7 set, and acknowledges
/// it, or zero where none is due.
pub proof fn reads_show_the_lines(c: ChipView, command_port: bool, i: int, line: int)
    requires
        c.wf(),
        0 <= i < 8,
    ensures
        ({
            let (value, d) = c.port_read(command_port);
            &&& !c.poll ==> d == c
            &&& !c.poll && !command_port ==> digit(value, i) == c.imr.contains(i)
            &&& !c.poll && command_port && c.read_reg_select ==> digit(value, i) == c.isr.contains(
                i,
            )
            &&& !c.poll && command_port && !c.read_reg_select ==> digit(value, i) == c.irr.contains(
                i,
            )
            &&& c.poll && due(c, line) ==> value == 0x80 + line && d == ChipView {
                poll: false,
                ..c.acknowledged(line)
            }
            &&& c.poll && (forall|m: int| !#[trigger] due(c, m)) ==> value == 0 && d == ChipView {
                poll: false,
                ..c
            }
        }),
{
    byte_has_the_digits_of_its_lines(c.imr, i);
    byte_has_the_digits_of_its_lines(c.isr, i);
    byte_has_the_digits_of_its_lines(c.irr, i);
    chip_delivers_the_due_line(c, line);
    if let Some(m) = c.irq() {
        chip_delivers_the_due_line(c, m);
    }
}

/// Ports 0x20 and 0x21 are the command and the data port of the master, 0xa0 and 0xa1 those of the
/// slave, and 0x4d0 and 0x4d1 choose the lines of either that are level triggered one by one: those
/// whose bit is set, as far as the chip lets them be chosen. What is written to one chip leaves the
/// other one alone, but for line 2 of the master.
pub proof fn ports_belong_to_chips(p: PairView, value: u8, i: int)
    requires
        p.wf(),
        0 <= i < 8,
    ensures
        p.port_written(0x20, value) == (PairView {
            master: p.master.commanded(value),
            ..p
        }).cascaded(),
        p.port_written(0x21, value) == (PairView {
            master: p.master.data_written(value),
            ..p
        }).cascaded(),
        p.port_written(0xa0, value) == (PairView {
            slave: p.slave.commanded(value),
            ..p
        }).cascaded(),
        p.port_written(0xa1, value) == (PairView {
            slave: p.slave.data_written(value),
            ..p
        }).cascaded(),
        ({
            let q = p.port_written(0x4d0, value);
            &&& q.master.elcr.contains(i) == (digit(value, i) && p.master.elcr_mask.contains(i))
            &&& q.slave == p.slave
        }),
        ({
            let q = p.port_written(0x4d1, value);
            &&& q.slave.elcr.contains(i) == (digit(value, i) && p.slave.elcr_mask.contains(i))
            &&& q.slave == ChipView { elcr: q.slave.elcr, ..p.slave }
        }),
        p.port_read(0x20) == (p.master.port_read(true).0, PairView {
            master: p.master.port_read(true).1,
            ..p
        }),
        p.port_read(0x21) == (p.master.port_read(false).0, PairView {
            master: p.master.port_read(false).1,
            ..p
        }),
        p.port_read(0xa0) == (p.slave.port_read(true).0, PairView {
            slave: p.slave.port_read(true).1,
            ..p
        }),
        p.port_read(0xa1) == (p.slave.port_read(false).0, PairView {
            slave: p.slave.port_read(false).1,
            ..p
        }),
        digit(p.port_read(0x4d0).0, i) == p.master.elcr.contains(i) && p.port_read(0x4d0).1 == p,
        digit(p.port_read(0x4d1).0, i) == p.slave.elcr.contains(i) && p.port_read(0x4d1).1 == p,
{
    bits_are_digits(value);
    byte_has_the_digits_of_its_lines(p.master.elcr, i);
    byte_has_the_digits_of_its_lines(p.slave.elcr, i);
}

/// After power-on nothing is requested, masked or in service, and lines 3 to 7 of the master, and
/// lines 1 to 4, 6 and 7 of the slave, are those that can be level triggered one by one. No
/// operation changes which these are.
pub proof fn selectable_lines_are_fixed(p: PairView, line: int, high: bool, port: u16, value: u8)
    ensures
        at_rest(PairView::initial().master),
        at_rest(PairView::initial().slave),
        !PairView::initial().master.imr.contains(line),
        !PairView::initial().slave.imr.contains(line),
        PairView::initial().master.master && !PairView::initial().slave.master,
        PairView::initial().master.elcr_mask.contains(line) <==> 3 <= line <= 7,
        PairView::initial().slave.elcr_mask.contains(line) <==> line == 1 || line == 2 || line == 3
            || line == 4 || line == 6 || line == 7,
        p.line_set(line, high).master.elcr_mask == p.master.elcr_mask,
        p.line_set(line, high).slave.elcr_mask == p.slave.elcr_mask,
        p.port_written(port, value).master.elcr_mask == p.master.elcr_mask,
        p.port_written(port, value).slave.elcr_mask == p.slave.elcr_mask,
        p.vector_acknowledged().master.elcr_mask == p.master.elcr_mask,
        p.vector_acknowledged().slave.elcr_mask == p.slave.elcr_mask,
{
    bits_are_digits(0xf8);
    bits_are_digits(0xde);
}

/// The pair has six ports and no other.
pub proof fn pair_has_six_ports(port: u16)
    ensures
        PairView::knows_port(port) <==> 0x20 <= port <= 0x21 || 0xa0 <= port <= 0xa1 || 0x4d0
            <= port <= 0x4d1,
{
}

} // verus!
