use axvm_devices::bus::{AccessWidth, Port};
use axvm_devices::error::VmError;
use axvm_devices::pic::pair::EmulatedPic8259;

fn write(pic: &mut EmulatedPic8259, port: u16, value: usize) {
    pic.handle_port_write(Port::new(port), AccessWidth::Byte, value)
        .unwrap();
}

fn read(pic: &mut EmulatedPic8259, port: u16) -> usize {
    pic.handle_port_read(Port::new(port), AccessWidth::Byte)
        .unwrap()
}

fn init_pic(pic: &mut EmulatedPic8259) {
    write(pic, 0x20, 0x11);
    write(pic, 0x21, 0x20);
    write(pic, 0x21, 0x04);
    write(pic, 0x21, 0x01);

    write(pic, 0xa0, 0x11);
    write(pic, 0xa1, 0x28);
    write(pic, 0xa1, 0x02);
    write(pic, 0xa1, 0x01);
}

#[test]
fn master_irq0_extint_vector_follows_irq_base() {
    let mut pic = EmulatedPic8259::new();
    init_pic(&mut pic);

    pic.assert_irq(0, true);
    pic.assert_irq(0, false);

    assert_eq!(pic.read_irq_vector(), Some(0x20));
}

#[test]
fn slave_irq8_cascades_through_master_irq2() {
    let mut pic = EmulatedPic8259::new();
    init_pic(&mut pic);

    pic.assert_irq(8, true);
    pic.assert_irq(8, false);

    assert_eq!(pic.read_irq_vector(), Some(0x28));
}

#[test]
fn line_in_service_holds_lower_lines_back_until_it_ends() {
    let mut pic = EmulatedPic8259::default();
    init_pic(&mut pic);

    pic.assert_irq(1, true);
    assert_eq!(pic.read_irq_vector(), Some(0x21));
    assert_eq!(pic.master_isr(), 0b10);

    pic.assert_irq(3, true);
    assert_eq!(pic.read_irq_vector(), None);
    pic.assert_irq(0, true);
    assert_eq!(pic.read_irq_vector(), Some(0x20));
    assert_eq!(pic.master_isr(), 0b11);

    write(&mut pic, 0x20, 0x20);
    assert_eq!(pic.master_isr(), 0b10);
    write(&mut pic, 0x20, 0x20);
    assert_eq!(pic.master_isr(), 0);
    assert_eq!(pic.read_irq_vector(), Some(0x23));
}

#[test]
fn extint_leaves_nothing_in_service() {
    let mut pic = EmulatedPic8259::new();
    init_pic(&mut pic);

    pic.assert_irq(0, true);
    pic.assert_irq(0, false);
    assert_eq!(pic.read_irq_vector_extint(), Some(0x20));
    assert_eq!(pic.master_isr(), 0);
    assert_eq!(pic.read_irq_vector_extint(), None);

    pic.assert_irq(9, true);
    assert_eq!(pic.read_irq_vector_extint(), Some(0x29));
    write(&mut pic, 0xa0, 0x0b);
    assert_eq!(read(&mut pic, 0xa0), 0);
}

#[test]
fn masked_line_is_not_delivered() {
    let mut pic = EmulatedPic8259::new();
    init_pic(&mut pic);
    write(&mut pic, 0x21, 0x01);
    pic.assert_irq(0, true);
    assert_eq!(pic.read_irq_vector(), None);
    assert_eq!(read(&mut pic, 0x21), 0x01);
    assert_eq!(read(&mut pic, 0x20), 0x01);
    write(&mut pic, 0x21, 0);
    assert_eq!(pic.read_irq_vector(), Some(0x20));
}

#[test]
fn level_triggered_line_requests_while_it_is_high() {
    let mut pic = EmulatedPic8259::new();
    init_pic(&mut pic);
    write(&mut pic, 0x4d0, 0xff);
    write(&mut pic, 0x4d1, 0xff);
    assert_eq!(read(&mut pic, 0x4d0), 0xf8);
    assert_eq!(read(&mut pic, 0x4d1), 0xde);

    pic.assert_irq(5, true);
    assert_eq!(pic.read_irq_vector(), Some(0x25));
    write(&mut pic, 0x20, 0x65);
    assert_eq!(pic.read_irq_vector(), Some(0x25));
    pic.assert_irq(5, false);
    write(&mut pic, 0x20, 0x65);
    assert_eq!(pic.read_irq_vector(), None);
}

#[test]
fn poll_acknowledges_what_it_reports() {
    let mut pic = EmulatedPic8259::new();
    init_pic(&mut pic);
    pic.assert_irq(4, true);
    write(&mut pic, 0x20, 0x0c);
    assert_eq!(read(&mut pic, 0x20), 0x84);
    assert_eq!(pic.master_isr(), 0x10);
    write(&mut pic, 0x20, 0x0c);
    assert_eq!(read(&mut pic, 0x20), 0);
}

#[test]
fn rotating_end_of_interrupt_moves_the_priorities() {
    let mut pic = EmulatedPic8259::new();
    init_pic(&mut pic);
    pic.assert_irq(1, true);
    assert_eq!(pic.read_irq_vector(), Some(0x21));
    write(&mut pic, 0x20, 0xa0);
    pic.assert_irq(0, true);
    pic.assert_irq(4, true);
    assert_eq!(pic.read_irq_vector(), Some(0x24));
}

#[test]
fn auto_end_of_interrupt_keeps_nothing_in_service() {
    let mut pic = EmulatedPic8259::new();
    write(&mut pic, 0x20, 0x13);
    write(&mut pic, 0x21, 0x47);
    write(&mut pic, 0x21, 0x02);
    pic.assert_irq(7, true);
    assert_eq!(pic.read_irq_vector(), Some(0x47));
    assert_eq!(pic.master_isr(), 0);
}

#[test]
fn other_lines_ports_and_widths_are_not_the_pair() {
    let mut pic = EmulatedPic8259::new();
    init_pic(&mut pic);
    pic.assert_irq(16, true);
    assert_eq!(pic.read_irq_vector(), None);
    assert_eq!(
        pic.handle_port_read(Port::new(0x22), AccessWidth::Byte),
        Err(VmError::Unsupported)
    );
    assert_eq!(
        pic.handle_port_write(Port::new(0x20), AccessWidth::Word, 0x11),
        Err(VmError::Unsupported)
    );
    assert_eq!(EmulatedPic8259::master_ports().start, Port::new(0x20));
    assert_eq!(EmulatedPic8259::slave_ports().end, Port::new(0xa1));
    assert_eq!(EmulatedPic8259::elcr_ports().end, Port::new(0x4d1));
}
