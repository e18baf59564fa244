//! The master and the slave together, behind their ports.

use vstd::prelude::*;

use crate::bus::{AccessWidth, Port, PortRange};
use crate::error::VmError;
use crate::pic::chip::{ChipView, PicChipState};
use crate::pic::lines;

verus! {

/// The command port of the master.
pub const PIC_MASTER_COMMAND_PORT: u16 = 0x20;

/// The data port of the master.
pub const PIC_MASTER_DATA_PORT: u16 = 0x21;

/// The command port of the slave.
pub const PIC_SLAVE_COMMAND_PORT: u16 = 0xa0;

/// The data port of the slave.
pub const PIC_SLAVE_DATA_PORT: u16 = 0xa1;

/// The port of the level-triggered lines of the master.
pub const PIC_MASTER_ELCR_PORT: u16 = 0x4d0;

/// The port of the level-triggered lines of the slave.
pub const PIC_SLAVE_ELCR_PORT: u16 = 0x4d1;

/// The lines of the master that can be level triggered one by one: 3 to 7.
pub const MASTER_ELCR_MASK: u8 = 0xf8;

/// The lines of the slave that can be level triggered one by one: 1 to 4, 6 and 7.
pub const SLAVE_ELCR_MASK: u8 = 0xde;

/// The state of the pair.
pub struct PairView {
    pub master: ChipView,
    pub slave: ChipView,
}

impl PairView {
    /// The state of the pair after power-on.
    pub open spec fn initial() -> PairView {
        PairView {
            master: ChipView::initial(true, lines::lines(MASTER_ELCR_MASK)),
            slave: ChipView::initial(false, lines::lines(SLAVE_ELCR_MASK)),
        }
    }

    /// What holds of the pair in every state.
    pub open spec fn wf(self) -> bool {
        self.master.wf() && self.slave.wf()
    }

    /// Line 2 of the master follows whether the slave has an interrupt to deliver.
    pub open spec fn cascaded(self) -> PairView {
        PairView { master: self.master.line_set(2, self.slave.irq() is Some), ..self }
    }

    /// The pair after one of its sixteen lines has been set high or low.
    pub open spec fn line_set(self, line: int, high: bool) -> PairView {
        if 0 <= line < 8 {
            PairView { master: self.master.line_set(line, high), ..self }.cascaded()
        } else if 8 <= line < 16 {
            PairView { slave: self.slave.line_set(line - 8, high), ..self }.cascaded()
        } else {
            self.cascaded()
        }
    }

    /// The line of the slave whose vector is delivered through line 2: the one that is due, or
    /// line 7 where the request has gone.
    pub open spec fn slave_line(self) -> int {
        match self.slave.irq() {
            Some(line) => line,
            None => 7,
        }
    }

    /// The vector to deliver next.
    pub open spec fn vector(self) -> Option<u8> {
        match self.master.irq() {
            None => None,
            Some(line) => Some(
                if line == 2 {
                    (self.slave.irq_base + self.slave_line()) as u8
                } else {
                    (self.master.irq_base + line) as u8
                },
            ),
        }
    }

    /// The pair after the vector to deliver next has been read and acknowledged.
    pub open spec fn vector_acknowledged(self) -> PairView {
        match self.master.irq() {
            None => self,
            Some(line) => PairView {
                master: self.master.acknowledged(line),
                slave: if line == 2 {
                    self.slave.acknowledged(self.slave_line())
                } else {
                    self.slave
                },
            }.cascaded(),
        }
    }

    /// The pair after the vector to deliver next has been read behind the back of the chips: the
    /// request is gone, and nothing is in service.
    pub open spec fn vector_taken(self) -> PairView {
        match self.master.irq() {
            None => self,
            Some(line) => PairView {
                master: ChipView { irr: self.master.irr.remove(line), ..self.master },
                slave: if line == 2 {
                    ChipView { irr: self.slave.irr.remove(self.slave_line()), ..self.slave }
                } else {
                    self.slave
                },
            }.cascaded(),
        }
    }

    /// The port is one of the six ports of the pair.
    pub open spec fn knows_port(port: u16) -> bool {
        port == 0x20 || port == 0x21 || port == 0xa0 || port == 0xa1 || port == 0x4d0 || port
            == 0x4d1
    }

    /// What a read of a port gives, and the pair afterwards.
    pub open spec fn port_read(self, port: u16) -> (u8, PairView) {
        if port == 0x20 || port == 0x21 {
            let (value, master) = self.master.port_read(port == 0x20);
            (value, PairView { master, ..self })
        } else if port == 0xa0 || port == 0xa1 {
            let (value, slave) = self.slave.port_read(port == 0xa0);
            (value, PairView { slave, ..self })
        } else if port == 0x4d0 {
            (lines::byte_of(self.master.elcr), self)
        } else {
            (lines::byte_of(self.slave.elcr), self)
        }
    }

    /// The pair after a write to a port.
    pub open spec fn port_written(self, port: u16, value: u8) -> PairView {
        if port == 0x20 {
            PairView { master: self.master.commanded(value), ..self }.cascaded()
        } else if port == 0x21 {
            PairView { master: self.master.data_written(value), ..self }.cascaded()
        } else if port == 0xa0 {
            PairView { slave: self.slave.commanded(value), ..self }.cascaded()
        } else if port == 0xa1 {
            PairView { slave: self.slave.data_written(value), ..self }.cascaded()
        } else if port == 0x4d0 {
            PairView {
                master: ChipView {
                    elcr: lines::lines(value).intersect(self.master.elcr_mask),
                    ..self.master
                },
                ..self
            }.cascaded()
        } else {
            PairView {
                slave: ChipView {
                    elcr: lines::lines(value).intersect(self.slave.elcr_mask),
                    ..self.slave
                },
                ..self
            }.cascaded()
        }
    }
}

/// The master and the slave.
#[derive(Debug)]
pub struct PicState {
    master: PicChipState,
    slave: PicChipState,
}

impl View for PicState {
    type V = PairView;

    closed spec fn view(&self) -> PairView {
        PairView { master: self.master@, slave: self.slave@ }
    }
}

impl PicState {
    /// The pair after power-on.
    pub fn new() -> (pair: PicState)
        ensures
            pair@ == PairView::initial(),
            pair@.wf(),
    {
        PicState {
            master: PicChipState::new(true, MASTER_ELCR_MASK),
            slave: PicChipState::new(false, SLAVE_ELCR_MASK),
        }
    }

    /// Sets line 2 of the master by whether the slave has an interrupt to deliver.
    pub fn update_cascade(&mut self)
        requires
            old(self)@.wf(),
        ensures
            final(self)@ == old(self)@.cascaded(),
            final(self)@.wf(),
    {
        let slave_pending: bool = self.slave.get_irq().is_some();
        self.master.set_irq_line(2, slave_pending);
    }

    /// Sets one of the sixteen lines high or low. Other lines are ignored.
    pub fn assert_irq(&mut self, irq: usize, level: bool)
        requires
            old(self)@.wf(),
        ensures
            final(self)@ == old(self)@.line_set(irq as int, level),
            final(self)@.wf(),
    {
        if irq < 8 {
            self.master.set_irq_line(irq as u8, level);
        } else if irq < 16 {
            self.slave.set_irq_line((irq - 8) as u8, level);
        }
        self.update_cascade();
    }

    /// Reads and acknowledges the vector to deliver next.
    pub fn read_irq_vector(&mut self) -> (r: Option<u8>)
        requires
            old(self)@.wf(),
        ensures
            r == old(self)@.vector(),
            final(self)@ == old(self)@.vector_acknowledged(),
            final(self)@.wf(),
    {
        let irq: u8 = match self.master.get_irq() {
            Some(irq) => irq,
            None => return None,
        };
        if irq == 2 {
            let slave_irq: u8 = match self.slave.get_irq() {
                Some(slave_irq) => slave_irq,
                None => 7,
            };
            self.slave.intack(slave_irq);
            self.master.intack(irq);
            self.update_cascade();
            return Some(self.slave.irq_base().wrapping_add(slave_irq));
        }
        self.master.intack(irq);
        self.update_cascade();
        Some(self.master.irq_base().wrapping_add(irq))
    }

    /// Reads the vector to deliver next and withdraws its request, without putting it into
    /// service.
    pub fn read_irq_vector_extint(&mut self) -> (r: Option<u8>)
        requires
            old(self)@.wf(),
        ensures
            r == old(self)@.vector(),
            final(self)@ == old(self)@.vector_taken(),
            final(self)@.wf(),
    {
        let irq: u8 = match self.master.get_irq() {
            Some(irq) => irq,
            None => return None,
        };
        if irq == 2 {
            let slave_irq: u8 = match self.slave.get_irq() {
                Some(slave_irq) => slave_irq,
                None => 7,
            };
            self.slave.withdraw(slave_irq);
            self.master.withdraw(irq);
            self.update_cascade();
            return Some(self.slave.irq_base().wrapping_add(slave_irq));
        }
        self.master.withdraw(irq);
        self.update_cascade();
        Some(self.master.irq_base().wrapping_add(irq))
    }

    /// Reads a port.
    pub fn port_read(&mut self, port: u16) -> (r: Result<u8, VmError>)
        requires
            old(self)@.wf(),
        ensures
            r is Ok <==> PairView::knows_port(port),
            r matches Err(err) ==> err == VmError::Unsupported && final(self)@ == old(self)@,
            r matches Ok(value) ==> (value, final(self)@) == old(self)@.port_read(port),
            final(self)@.wf(),
    {
        if port == PIC_MASTER_COMMAND_PORT {
            Ok(self.master.read(true))
        } else if port == PIC_MASTER_DATA_PORT {
            Ok(self.master.read(false))
        } else if port == PIC_SLAVE_COMMAND_PORT {
            Ok(self.slave.read(true))
        } else if port == PIC_SLAVE_DATA_PORT {
            Ok(self.slave.read(false))
        } else if port == PIC_MASTER_ELCR_PORT {
            Ok(self.master.elcr())
        } else if port == PIC_SLAVE_ELCR_PORT {
            Ok(self.slave.elcr())
        } else {
            Err(VmError::Unsupported)
        }
    }

    /// Writes a port.
    pub fn port_write(&mut self, port: u16, value: u8) -> (r: Result<(), VmError>)
        requires
            old(self)@.wf(),
        ensures
            r is Ok <==> PairView::knows_port(port),
            r matches Err(err) ==> err == VmError::Unsupported && final(self)@ == old(self)@,
            r is Ok ==> final(self)@ == old(self)@.port_written(port, value),
            final(self)@.wf(),
    {
        if port == PIC_MASTER_COMMAND_PORT {
            self.master.command_write(value);
        } else if port == PIC_MASTER_DATA_PORT {
            self.master.data_write(value);
        } else if port == PIC_SLAVE_COMMAND_PORT {
            self.slave.command_write(value);
        } else if port == PIC_SLAVE_DATA_PORT {
            self.slave.data_write(value);
        } else if port == PIC_MASTER_ELCR_PORT {
            self.master.set_elcr(value);
        } else if port == PIC_SLAVE_ELCR_PORT {
            self.slave.set_elcr(value);
        } else {
            return Err(VmError::Unsupported);
        }
        self.update_cascade();
        Ok(())
    }
}

/// A pair of 8259 interrupt controllers.
pub struct EmulatedPic8259 {
    state: PicState,
}

impl View for EmulatedPic8259 {
    type V = PairView;

    closed spec fn view(&self) -> PairView {
        self.state@
    }
}

impl EmulatedPic8259 {
    /// The pair after power-on.
    pub fn new() -> (pic: EmulatedPic8259)
        ensures
            pic@ == PairView::initial(),
            pic@.wf(),
    {
        EmulatedPic8259 { state: PicState::new() }
    }

    /// Sets one of the sixteen legacy lines high or low. Other lines are ignored.
    pub fn assert_irq(&mut self, irq: usize, level: bool)
        requires
            old(self)@.wf(),
        ensures
            final(self)@ == old(self)@.line_set(irq as int, level),
            final(self)@.wf(),
    {
        self.state.assert_irq(irq, level);
    }

    /// Reads and acknowledges the vector to deliver next.
    pub fn read_irq_vector(&mut self) -> (r: Option<u8>)
        requires
            old(self)@.wf(),
        ensures
            r == old(self)@.vector(),
            final(self)@ == old(self)@.vector_acknowledged(),
            final(self)@.wf(),
    {
        self.state.read_irq_vector()
    }

    /// Reads the vector to deliver next without putting its line into service.
    ///
    /// When a local APIC handles the acknowledge cycle of an external interrupt, the chips see no
    /// acknowledge of their own: the vector is read and the request cleared, but the line does
    /// not enter service. So later requests are not held back until the guest ends this one.
    pub fn read_irq_vector_extint(&mut self) -> (r: Option<u8>)
        requires
            old(self)@.wf(),
        ensures
            r == old(self)@.vector(),
            final(self)@ == old(self)@.vector_taken(),
            final(self)@.wf(),
    {
        self.state.read_irq_vector_extint()
    }

    /// The lines of the master that are in service, as a byte.
    pub fn master_isr(&self) -> (value: u8)
        ensures
            value == lines::byte_of(self@.master.isr),
    {
        self.state.master.isr()
    }

    /// Reads a port, one byte wide.
    pub fn handle_port_read(&mut self, port: Port, width: AccessWidth) -> (r: Result<
        usize,
        VmError,
    >)
        requires
            old(self)@.wf(),
        ensures
            r is Ok <==> width == AccessWidth::Byte && PairView::knows_port(port.0),
            r matches Err(err) ==> err == VmError::Unsupported && final(self)@ == old(self)@,
            r matches Ok(value) ==> (value as u8, final(self)@) == old(self)@.port_read(port.0)
                && value < 0x100,
            final(self)@.wf(),
    {
        if width != AccessWidth::Byte {
            return Err(VmError::Unsupported);
        }
        match self.state.port_read(port.number()) {
            Ok(value) => Ok(value as usize),
            Err(err) => Err(err),
        }
    }

    /// Writes a port, one byte wide.
    pub fn handle_port_write(&mut self, port: Port, width: AccessWidth, value: usize) -> (r: Result<
        (),
        VmError,
    >)
        requires
            old(self)@.wf(),
        ensures
            r is Ok <==> width == AccessWidth::Byte && PairView::knows_port(port.0),
            r matches Err(err) ==> err == VmError::Unsupported && final(self)@ == old(self)@,
            r is Ok ==> final(self)@ == old(self)@.port_written(port.0, (value % 0x100) as u8),
            final(self)@.wf(),
    {
        if width != AccessWidth::Byte {
            return Err(VmError::Unsupported);
        }
        self.state.port_write(port.number(), (value % 0x100) as u8)
    }

    /// The ports of the master.
    pub fn master_ports() -> (range: PortRange)
        ensures
            range == (PortRange { start: Port(0x20), end: Port(0x21) }),
    {
        PortRange::new(Port::new(PIC_MASTER_COMMAND_PORT), Port::new(PIC_MASTER_DATA_PORT))
    }

    /// The ports of the slave.
    pub fn slave_ports() -> (range: PortRange)
        ensures
            range == (PortRange { start: Port(0xa0), end: Port(0xa1) }),
    {
        PortRange::new(Port::new(PIC_SLAVE_COMMAND_PORT), Port::new(PIC_SLAVE_DATA_PORT))
    }

    /// The ports of the level-triggered lines.
    pub fn elcr_ports() -> (range: PortRange)
        ensures
            range == (PortRange { start: Port(0x4d0), end: Port(0x4d1) }),
    {
        PortRange::new(Port::new(PIC_MASTER_ELCR_PORT), Port::new(PIC_SLAVE_ELCR_PORT))
    }
}

impl Default for EmulatedPic8259 {
    fn default() -> (pic: EmulatedPic8259)
        ensures
            pic@ == PairView::initial(),
            pic@.wf(),
    {
        EmulatedPic8259::new()
    }
}

} // verus!
