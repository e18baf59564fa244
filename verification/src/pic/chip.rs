//! One 8259 interrupt controller.

use vstd::prelude::*;

use crate::pic::lines;
use crate::pic::lines::{common_lines, has_line, lines_minus, with_line, without_line};

verus! {

/// The state of a chip, its registers as sets of lines.
pub struct ChipView {
    /// The chip is the master of the pair.
    pub master: bool,
    /// The lines that request an interrupt.
    pub irr: Set<int>,
    /// The lines that are masked.
    pub imr: Set<int>,
    /// The lines whose interrupts are in service.
    pub isr: Set<int>,
    /// The lines that were high when they were last set.
    pub last_irr: Set<int>,
    /// The line of the highest priority; the others follow in turn.
    pub priority_add: int,
    /// The vector of line 0.
    pub irq_base: u8,
    /// The command port reads the lines in service in place of the requests.
    pub read_reg_select: bool,
    /// The next read is a poll.
    pub poll: bool,
    /// Masked lines in service do not hold others back.
    pub special_mask: bool,
    /// Which initialization word comes next, zero when initialization is over.
    pub init_state: int,
    /// Interrupts end when they are acknowledged.
    pub auto_eoi: bool,
    /// The priorities rotate when an interrupt ends by itself.
    pub rotate_on_auto_eoi: bool,
    /// The slave's line in service does not hold others back.
    pub special_fully_nested_mode: bool,
    /// A fourth initialization word comes.
    pub init4: bool,
    /// There is no third initialization word.
    pub single_mode: bool,
    /// Every line is level triggered.
    pub ltim: bool,
    /// The lines that are level triggered one by one.
    pub elcr: Set<int>,
    /// The lines that can be level triggered one by one.
    pub elcr_mask: Set<int>,
}

/// The line that has rank `rank` when line `add` has the highest priority.
pub open spec fn line_of_rank(add: int, rank: int) -> int {
    (rank + add) % 8
}

/// The first rank from `from` on whose line is in `s`, or 8 where there is none.
pub open spec fn best_rank(s: Set<int>, add: int, from: int) -> int
    decreases 8 - from,
{
    if from >= 8 {
        8
    } else if s.contains(line_of_rank(add, from)) {
        from
    } else {
        best_rank(s, add, from + 1)
    }
}

impl ChipView {
    /// The state of a chip after power-on.
    pub open spec fn initial(master: bool, elcr_mask: Set<int>) -> ChipView {
        ChipView {
            master,
            irr: Set::empty(),
            imr: Set::empty(),
            isr: Set::empty(),
            last_irr: Set::empty(),
            priority_add: 0,
            irq_base: 0,
            read_reg_select: false,
            poll: false,
            special_mask: false,
            init_state: 0,
            auto_eoi: false,
            rotate_on_auto_eoi: false,
            special_fully_nested_mode: false,
            init4: false,
            single_mode: false,
            ltim: false,
            elcr: Set::empty(),
            elcr_mask,
        }
    }

    /// What holds of a chip in every state.
    pub open spec fn wf(self) -> bool {
        &&& 0 <= self.priority_add < 8
        &&& 0 <= self.init_state <= 3
        &&& self.irq_base % 8 == 0
        &&& self.elcr.subset_of(self.elcr_mask)
    }

    /// The line is level triggered.
    pub open spec fn level_triggered(self, line: int) -> bool {
        self.ltim || self.elcr.contains(line)
    }

    /// The lines that request an interrupt and are not masked.
    pub open spec fn pending(self) -> Set<int> {
        self.irr.difference(self.imr)
    }

    /// The lines in service that hold lines of the same or a lower priority back.
    pub open spec fn holding(self) -> Set<int> {
        let unmasked = if self.special_mask {
            self.isr.difference(self.imr)
        } else {
            self.isr
        };
        if self.master && self.special_fully_nested_mode {
            unmasked.remove(2)
        } else {
            unmasked
        }
    }

    /// The line whose interrupt is to be delivered next.
    pub open spec fn irq(self) -> Option<int> {
        let rank = best_rank(self.pending(), self.priority_add, 0);
        if rank < best_rank(self.holding(), self.priority_add, 0) {
            Some(line_of_rank(self.priority_add, rank))
        } else {
            None
        }
    }

    /// The chip after the start of an initialization, but for what the first word itself says.
    pub open spec fn restarted(self) -> ChipView {
        ChipView {
            irr: self.irr.intersect(self.elcr),
            ltim: self.ltim,
            elcr: self.elcr,
            ..ChipView::initial(self.master, self.elcr_mask)
        }
    }

    /// The chip after the interrupt of a line has been acknowledged.
    pub open spec fn acknowledged(self, line: int) -> ChipView {
        ChipView {
            priority_add: if self.auto_eoi && self.rotate_on_auto_eoi {
                (line + 1) % 8
            } else {
                self.priority_add
            },
            isr: if self.auto_eoi {
                self.isr
            } else {
                self.isr.insert(line)
            },
            irr: if self.level_triggered(line) {
                self.irr
            } else {
                self.irr.remove(line)
            },
            ..self
        }
    }

    /// The chip after a line has been set high or low. A level-triggered line requests an
    /// interrupt while it is high; any other one from when it goes high until it is acknowledged.
    pub open spec fn line_set(self, line: int, high: bool) -> ChipView {
        ChipView {
            irr: if high && (self.level_triggered(line) || !self.last_irr.contains(line)) {
                self.irr.insert(line)
            } else if !high && self.level_triggered(line) {
                self.irr.remove(line)
            } else {
                self.irr
            },
            last_irr: if high {
                self.last_irr.insert(line)
            } else {
                self.last_irr.remove(line)
            },
            ..self
        }
    }

    /// The chip after the interrupt of the highest priority in service has ended, and the line
    /// where there was one.
    pub open spec fn ended(self, rotate: bool) -> ChipView {
        let rank = best_rank(self.isr, self.priority_add, 0);
        if rank == 8 {
            self
        } else {
            let line = line_of_rank(self.priority_add, rank);
            ChipView {
                isr: self.isr.remove(line),
                priority_add: if rotate {
                    (line + 1) % 8
                } else {
                    self.priority_add
                },
                ..self
            }
        }
    }

    /// The chip after the first initialization word.
    pub open spec fn initializing(self, value: u8) -> ChipView {
        ChipView {
            init_state: 1,
            init4: lines::bit(value, 0),
            single_mode: lines::bit(value, 1),
            ltim: lines::bit(value, 3),
            ..self.restarted()
        }
    }

    /// The chip after a mode word.
    pub open spec fn modes_set(self, value: u8) -> ChipView {
        ChipView {
            poll: self.poll || lines::bit(value, 2),
            read_reg_select: if lines::bit(value, 1) {
                lines::bit(value, 0)
            } else {
                self.read_reg_select
            },
            special_mask: if lines::bit(value, 6) {
                lines::bit(value, 5)
            } else {
                self.special_mask
            },
            ..self
        }
    }

    /// The chip after an end-of-interrupt word, whose upper three bits say what it does and whose
    /// lower three bits name a line.
    pub open spec fn end_word(self, value: u8) -> ChipView {
        let line = value as int % 8;
        match value / 32 {
            0 => ChipView { rotate_on_auto_eoi: false, ..self },
            4 => ChipView { rotate_on_auto_eoi: true, ..self },
            1 => self.ended(false),
            5 => self.ended(true),
            3 => ChipView { isr: self.isr.remove(line), ..self },
            6 => ChipView { priority_add: (line + 1) % 8, ..self },
            7 => ChipView { isr: self.isr.remove(line), priority_add: (line + 1) % 8, ..self },
            _ => self,
        }
    }

    /// The chip after a write to its command port: the first initialization word, a mode word, or
    /// an end-of-interrupt word.
    pub open spec fn commanded(self, value: u8) -> ChipView {
        if lines::bit(value, 4) {
            self.initializing(value)
        } else if lines::bit(value, 3) {
            self.modes_set(value)
        } else {
            self.end_word(value)
        }
    }

    /// The chip after a write to its data port: the mask, or the initialization word that is due.
    pub open spec fn data_written(self, value: u8) -> ChipView {
        if self.init_state == 0 {
            ChipView { imr: lines::lines(value), ..self }
        } else if self.init_state == 1 {
            ChipView {
                irq_base: (value as int / 8 * 8) as u8,
                init_state: if !self.single_mode {
                    2
                } else if self.init4 {
                    3
                } else {
                    0
                },
                ..self
            }
        } else if self.init_state == 2 {
            ChipView {
                init_state: if self.init4 {
                    3
                } else {
                    0
                },
                ..self
            }
        } else {
            ChipView {
                special_fully_nested_mode: lines::bit(value, 4),
                auto_eoi: lines::bit(value, 1),
                init_state: 0,
                ..self
            }
        }
    }

    /// What a read of one of the two ports gives, and the chip afterwards. A read after a poll
    /// command acknowledges the interrupt that it reports.
    pub open spec fn port_read(self, command_port: bool) -> (u8, ChipView) {
        if self.poll {
            match self.irq() {
                Some(line) => (
                    (line + 0x80) as u8,
                    ChipView { poll: false, ..self.acknowledged(line) },
                ),
                None => (0, ChipView { poll: false, ..self }),
            }
        } else if !command_port {
            (lines::byte_of(self.imr), self)
        } else if self.read_reg_select {
            (lines::byte_of(self.isr), self)
        } else {
            (lines::byte_of(self.irr), self)
        }
    }
}

/// What a rank is that the search has found, or missed.
pub proof fn best_rank_is_first(s: Set<int>, add: int, from: int)
    requires
        0 <= from <= 8,
    ensures
        from <= best_rank(s, add, from) <= 8,
        best_rank(s, add, from) < 8 ==> s.contains(line_of_rank(add, best_rank(s, add, from))),
        forall|rank: int|
            from <= rank < best_rank(s, add, from) ==> !s.contains(
                #[trigger] line_of_rank(add, rank),
            ),
    decreases 8 - from,
{
    if from < 8 && !s.contains(line_of_rank(add, from)) {
        best_rank_is_first(s, add, from + 1);
    }
}

/// One 8259 interrupt controller.
#[derive(Clone, Copy, Debug)]
pub struct PicChipState {
    master: bool,
    irr: u8,
    imr: u8,
    isr: u8,
    last_irr: u8,
    priority_add: u8,
    irq_base: u8,
    read_reg_select: bool,
    poll: bool,
    special_mask: bool,
    init_state: u8,
    auto_eoi: bool,
    rotate_on_auto_eoi: bool,
    special_fully_nested_mode: bool,
    init4: bool,
    single_mode: bool,
    ltim: bool,
    elcr: u8,
    elcr_mask: u8,
}

impl View for PicChipState {
    type V = ChipView;

    closed spec fn view(&self) -> ChipView {
        ChipView {
            master: self.master,
            irr: lines::lines(self.irr),
            imr: lines::lines(self.imr),
            isr: lines::lines(self.isr),
            last_irr: lines::lines(self.last_irr),
            priority_add: self.priority_add as int,
            irq_base: self.irq_base,
            read_reg_select: self.read_reg_select,
            poll: self.poll,
            special_mask: self.special_mask,
            init_state: self.init_state as int,
            auto_eoi: self.auto_eoi,
            rotate_on_auto_eoi: self.rotate_on_auto_eoi,
            special_fully_nested_mode: self.special_fully_nested_mode,
            init4: self.init4,
            single_mode: self.single_mode,
            ltim: self.ltim,
            elcr: lines::lines(self.elcr),
            elcr_mask: lines::lines(self.elcr_mask),
        }
    }
}

impl PicChipState {
    /// A chip after power-on.
    pub fn new(master: bool, elcr_mask: u8) -> (chip: PicChipState)
        ensures
            chip@ == ChipView::initial(master, lines::lines(elcr_mask)),
            chip@.wf(),
    {
        proof {
            lines::no_lines(0);
        }
        PicChipState {
            master,
            irr: 0,
            imr: 0,
            isr: 0,
            last_irr: 0,
            priority_add: 0,
            irq_base: 0,
            read_reg_select: false,
            poll: false,
            special_mask: false,
            init_state: 0,
            auto_eoi: false,
            rotate_on_auto_eoi: false,
            special_fully_nested_mode: false,
            init4: false,
            single_mode: false,
            ltim: false,
            elcr: 0,
            elcr_mask,
        }
    }

    /// Starts the chip afresh. Requests of lines that are level triggered one by one stay.
    pub fn reset_common(&mut self)
        requires
            old(self)@.wf(),
        ensures
            final(self)@ == old(self)@.restarted(),
            final(self)@.wf(),
    {
        proof {
            lines::no_lines(0);
        }
        self.last_irr = 0;
        self.irr = common_lines(self.irr, self.elcr);
        self.imr = 0;
        self.isr = 0;
        self.priority_add = 0;
        self.irq_base = 0;
        self.read_reg_select = false;
        self.poll = false;
        self.special_mask = false;
        self.init_state = 0;
        self.auto_eoi = false;
        self.rotate_on_auto_eoi = false;
        self.special_fully_nested_mode = false;
        self.init4 = false;
        self.single_mode = false;
    }

    /// The rank of the line of the highest priority in `mask`, or 8 where `mask` is empty.
    pub fn get_priority(&self, mask: u8) -> (rank: u8)
        requires
            self@.wf(),
        ensures
            rank == best_rank(lines::lines(mask), self@.priority_add, 0),
            rank <= 8,
            rank == 8 <==> mask == 0,
    {
        proof {
            lines::no_lines(mask);
            best_rank_is_first(lines::lines(mask), self@.priority_add, 0);
            if mask == 0 {
                assert(best_rank(lines::lines(mask), self@.priority_add, 0) == 8);
            } else {
                assert(exists|k: int| lines::lines(mask).contains(k)) by {
                    if forall|k: int| !lines::lines(mask).contains(k) {
                        assert(lines::lines(mask) =~= Set::<int>::empty());
                    }
                }
                let k = choose|k: int| lines::lines(mask).contains(k);
                let rank = (k - self@.priority_add) % 8;
                assert(line_of_rank(self@.priority_add, rank) == k);
            }
        }
        if mask == 0 {
            return 8;
        }
        let mut rank: u8 = 0;
        while rank < 8 && !has_line(mask, (rank + self.priority_add) % 8)
            invariant
                rank <= 8,
                self@.wf(),
                best_rank(lines::lines(mask), self@.priority_add, 0) == best_rank(
                    lines::lines(mask),
                    self@.priority_add,
                    rank as int,
                ),
            decreases 8 - rank,
        {
            rank = rank + 1;
        }
        rank
    }

    /// The line whose interrupt is to be delivered next.
    pub fn get_irq(&self) -> (r: Option<u8>)
        requires
            self@.wf(),
        ensures
            match self@.irq() {
                Some(line) => r matches Some(i) && i == line && i < 8,
                None => r is None,
            },
    {
        let mask: u8 = lines_minus(self.irr, self.imr);
        let rank: u8 = self.get_priority(mask);
        proof {
            best_rank_is_first(self@.holding(), self@.priority_add, 0);
        }
        if rank == 8 {
            return None;
        }
        let mut in_service: u8 = self.isr;
        if self.special_mask {
            in_service = lines_minus(in_service, self.imr);
        }
        if self.master && self.special_fully_nested_mode {
            in_service = without_line(in_service, 2);
        }
        let current: u8 = self.get_priority(in_service);
        if rank < current {
            Some((rank + self.priority_add) % 8)
        } else {
            None
        }
    }

    /// Acknowledges the interrupt of a line.
    pub fn intack(&mut self, irq: u8)
        requires
            old(self)@.wf(),
            irq < 8,
        ensures
            final(self)@ == old(self)@.acknowledged(irq as int),
            final(self)@.wf(),
    {
        if self.auto_eoi {
            if self.rotate_on_auto_eoi {
                self.priority_add = (irq + 1) % 8;
            }
        } else {
            self.isr = with_line(self.isr, irq);
        }
        if !self.ltim && !has_line(self.elcr, irq) {
            self.irr = without_line(self.irr, irq);
        }
    }

    /// Sets a line high or low.
    #[verifier::rlimit(30)]
    pub fn set_irq_line(&mut self, irq: u8, level: bool)
        requires
            old(self)@.wf(),
            irq < 8,
        ensures
            final(self)@ == old(self)@.line_set(irq as int, level),
            final(self)@.wf(),
    {
        if self.ltim || has_line(self.elcr, irq) {
            if level {
                self.irr = with_line(self.irr, irq);
                self.last_irr = with_line(self.last_irr, irq);
            } else {
                self.irr = without_line(self.irr, irq);
                self.last_irr = without_line(self.last_irr, irq);
            }
            return;
        }
        if level {
            if !has_line(self.last_irr, irq) {
                self.irr = with_line(self.irr, irq);
            }
            self.last_irr = with_line(self.last_irr, irq);
        } else {
            self.last_irr = without_line(self.last_irr, irq);
        }
    }

    /// Withdraws the request of a line without putting it into service.
    pub fn withdraw(&mut self, irq: u8)
        requires
            old(self)@.wf(),
            irq < 8,
        ensures
            final(self)@ == (ChipView { irr: old(self)@.irr.remove(irq as int), ..old(self)@ }),
            final(self)@.wf(),
    {
        self.irr = without_line(self.irr, irq);
    }

    /// Ends the interrupt of the highest priority in service.
    fn end_highest(&mut self, rotate: bool)
        requires
            old(self)@.wf(),
        ensures
            final(self)@ == old(self)@.ended(rotate),
            final(self)@.wf(),
    {
        let rank: u8 = self.get_priority(self.isr);
        if rank != 8 {
            let irq: u8 = (rank + self.priority_add) % 8;
            self.isr = without_line(self.isr, irq);
            if rotate {
                self.priority_add = (irq + 1) % 8;
            }
        }
    }

    /// Takes the first initialization word.
    fn start_initialization(&mut self, value: u8)
        requires
            old(self)@.wf(),
        ensures
            final(self)@ == old(self)@.initializing(value),
            final(self)@.wf(),
    {
        self.reset_common();
        self.init_state = 1;
        self.init4 = has_line(value, 0);
        self.single_mode = has_line(value, 1);
        self.ltim = has_line(value, 3);
    }

    /// Takes a mode word.
    #[verifier::rlimit(30)]
    fn set_modes(&mut self, value: u8)
        requires
            old(self)@.wf(),
        ensures
            final(self)@ == old(self)@.modes_set(value),
            final(self)@.wf(),
    {
        if has_line(value, 2) {
            self.poll = true;
        }
        if has_line(value, 1) {
            self.read_reg_select = has_line(value, 0);
        }
        if has_line(value, 6) {
            self.special_mask = has_line(value, 5);
        }
    }

    /// Takes an end-of-interrupt word.
    fn end_interrupt(&mut self, value: u8)
        requires
            old(self)@.wf(),
        ensures
            final(self)@ == old(self)@.end_word(value),
            final(self)@.wf(),
    {
        let command: u8 = value / 32;
        if command == 0 || command == 4 {
            self.rotate_on_auto_eoi = command == 4;
        } else if command == 1 || command == 5 {
            self.end_highest(command == 5);
        } else if command == 3 {
            self.isr = without_line(self.isr, value % 8);
        } else if command == 6 {
            self.priority_add = (value % 8 + 1) % 8;
        } else if command == 7 {
            self.isr = without_line(self.isr, value % 8);
            self.priority_add = (value % 8 + 1) % 8;
        }
    }

    /// Writes the command port.
    pub fn command_write(&mut self, value: u8)
        requires
            old(self)@.wf(),
        ensures
            final(self)@ == old(self)@.commanded(value),
            final(self)@.wf(),
    {
        if has_line(value, 4) {
            self.start_initialization(value);
        } else if has_line(value, 3) {
            self.set_modes(value);
        } else {
            self.end_interrupt(value);
        }
    }

    /// Writes the data port.
    #[verifier::rlimit(30)]
    pub fn data_write(&mut self, value: u8)
        requires
            old(self)@.wf(),
        ensures
            final(self)@ == old(self)@.data_written(value),
            final(self)@.wf(),
    {
        if self.init_state == 0 {
            self.imr = value;
        } else if self.init_state == 1 {
            self.irq_base = value / 8 * 8;
            self.init_state = if self.single_mode {
                if self.init4 {
                    3
                } else {
                    0
                }
            } else {
                2
            };
        } else if self.init_state == 2 {
            self.init_state = if self.init4 {
                3
            } else {
                0
            };
        } else {
            self.special_fully_nested_mode = has_line(value, 4);
            self.auto_eoi = has_line(value, 1);
            self.init_state = 0;
        }
    }

    /// Reads the command port or the data port.
    pub fn read(&mut self, command_port: bool) -> (value: u8)
        requires
            old(self)@.wf(),
        ensures
            (value, final(self)@) == old(self)@.port_read(command_port),
            final(self)@.wf(),
    {
        proof {
            lines::byte_of_lines(self.imr);
            lines::byte_of_lines(self.isr);
            lines::byte_of_lines(self.irr);
        }
        if self.poll {
            let value: u8 = match self.get_irq() {
                Some(irq) => {
                    self.intack(irq);
                    irq + 0x80
                },
                None => 0,
            };
            self.poll = false;
            return value;
        }
        if command_port {
            if self.read_reg_select {
                self.isr
            } else {
                self.irr
            }
        } else {
            self.imr
        }
    }

    /// The lines that are level triggered one by one, as a byte.
    pub fn elcr(&self) -> (value: u8)
        ensures
            value == lines::byte_of(self@.elcr),
    {
        proof {
            lines::byte_of_lines(self.elcr);
        }
        self.elcr
    }

    /// Sets the lines that are level triggered one by one, as far as they can be.
    pub fn set_elcr(&mut self, value: u8)
        requires
            old(self)@.wf(),
        ensures
            final(self)@ == (ChipView {
                elcr: lines::lines(value).intersect(old(self)@.elcr_mask),
                ..old(self)@
            }),
            final(self)@.wf(),
    {
        self.elcr = common_lines(value, self.elcr_mask);
    }

    /// The lines in service, as a byte.
    pub fn isr(&self) -> (value: u8)
        ensures
            value == lines::byte_of(self@.isr),
    {
        proof {
            lines::byte_of_lines(self.isr);
        }
        self.isr
    }

    /// The vector of line 0.
    pub fn irq_base(&self) -> (value: u8)
        ensures
            value == self@.irq_base,
    {
        self.irq_base
    }
}

} // verus!
