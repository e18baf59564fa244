use axvm_devices::bus::{AccessWidth, Port};
use axvm_devices::error::VmError;
use axvm_devices::guest_memory::{GuestMemory, GuestRam, GuestSpace};
use axvm_devices::virtio_blk::device::{LegacyNotifyResult, LegacyVirtioBlk, LEGACY_BLK_IO_BASE};
use axvm_devices::virtio_blk::disk::MemoryDisk;
use axvm_devices::virtio_blk::queue::LegacyQueue;
use axvm_devices::virtio_blk::request::{VIRTIO_BLK_S_IOERR, VIRTIO_BLK_T_GET_ID};

struct TestGuestMemory {
    ram: GuestRam,
}

impl TestGuestMemory {
    fn new(size: usize) -> Self {
        Self {
            ram: GuestRam::new(0, 0, vec![0; size]),
        }
    }

    fn write(&mut self, gpa: usize, bytes: &[u8]) {
        self.ram.write_buffer(gpa as u64, bytes).unwrap();
    }

    fn read(&self, gpa: usize, len: usize) -> &[u8] {
        &self.ram.as_slice()[gpa..gpa + len]
    }

    fn write_u16(&mut self, gpa: usize, value: u16) {
        self.write(gpa, &value.to_le_bytes());
    }

    fn write_u32(&mut self, gpa: usize, value: u32) {
        self.write(gpa, &value.to_le_bytes());
    }

    fn write_u64(&mut self, gpa: usize, value: u64) {
        self.write(gpa, &value.to_le_bytes());
    }

    fn read_u16(&self, gpa: usize) -> u16 {
        u16::from_le_bytes(self.read(gpa, 2).try_into().unwrap())
    }

    fn read_u32(&self, gpa: usize) -> u32 {
        u32::from_le_bytes(self.read(gpa, 4).try_into().unwrap())
    }

    fn write_desc(
        &mut self,
        table: usize,
        index: usize,
        addr: u64,
        len: u32,
        flags: u16,
        next: u16,
    ) {
        let base = table + index * 16;
        self.write_u64(base, addr);
        self.write_u32(base + 8, len);
        self.write_u16(base + 12, flags);
        self.write_u16(base + 14, next);
    }
}

fn set_up(blk: &mut LegacyVirtioBlk, mem: &mut TestGuestMemory, queue: usize) {
    blk.handle_write(
        Port::new(LEGACY_BLK_IO_BASE + 0x0c),
        AccessWidth::Word,
        8,
        &mut mem.ram,
    )
    .unwrap();
    blk.handle_write(
        Port::new(LEGACY_BLK_IO_BASE + 0x08),
        AccessWidth::Dword,
        queue >> 12,
        &mut mem.ram,
    )
    .unwrap();
}

fn notify(
    blk: &mut LegacyVirtioBlk,
    mem: &mut TestGuestMemory,
) -> Result<LegacyNotifyResult, VmError> {
    blk.handle_write(
        Port::new(LEGACY_BLK_IO_BASE + 0x10),
        AccessWidth::Word,
        0,
        &mut mem.ram,
    )
}

#[test]
fn memory_disk_reports_capacity_and_updates_sectors() {
    let mut disk = MemoryDisk::new(vec![0; 1024]);
    let mut sector = [0u8; 4];

    disk.read_at(512, &mut sector).unwrap();
    assert_eq!(sector, [0; 4]);

    disk.write_at(512, &[1, 2, 3, 4]).unwrap();
    disk.read_at(512, &mut sector).unwrap();

    assert_eq!(disk.capacity_sectors(), 2);
    assert_eq!(sector, [1, 2, 3, 4]);
}

#[test]
fn memory_disk_refuses_ranges_past_its_end() {
    let mut disk = MemoryDisk::new(vec![7; 16]);
    let mut out = [1u8; 4];

    assert_eq!(disk.read_at(13, &mut out), Err(VmError::InvalidInput));
    assert_eq!(out, [1; 4]);
    assert_eq!(disk.read_at(usize::MAX, &mut out), Err(VmError::InvalidInput));
    assert_eq!(disk.write_at(13, &[0; 4]), Err(VmError::InvalidInput));
    assert_eq!(disk.as_slice(), &[7; 16]);
    assert_eq!(disk.write_at(12, &[0; 4]), Ok(()));
    assert_eq!(disk.read_at(16, &mut []), Ok(()));
}

#[test]
fn reports_capacity_from_installed_disk_image() {
    let mut blk = LegacyVirtioBlk::new();
    blk.install_disk_image(vec![0; 1024]);

    let low = blk
        .handle_read(Port::new(LEGACY_BLK_IO_BASE + 0x14), AccessWidth::Dword)
        .unwrap();
    let high = blk
        .handle_read(Port::new(LEGACY_BLK_IO_BASE + 0x18), AccessWidth::Dword)
        .unwrap();

    assert_eq!(low, 2);
    assert_eq!(high, 0);
}

#[test]
fn read_request_copies_sector_into_guest_buffer_and_publishes_used_ring() {
    let mut disk = vec![0; 1024];
    disk[512..516].copy_from_slice(&[1, 2, 3, 4]);
    let mut blk = LegacyVirtioBlk::new();
    blk.install_disk_image(disk);

    let mut mem = TestGuestMemory::new(0x5000);
    let queue = 0x1000;
    let desc = queue;
    let avail = queue + 16 * 8;
    let used = (avail + 4 + 8 * 2 + 0xfff) & !0xfff;
    let header = 0x3000;
    let data = 0x3100;
    let status = 0x3200;

    mem.write_u32(header, 0);
    mem.write_u32(header + 4, 0);
    mem.write_u64(header + 8, 1);
    mem.write_desc(desc, 0, header as u64, 16, 1, 1);
    mem.write_desc(desc, 1, data as u64, 4, 1 | 2, 2);
    mem.write_desc(desc, 2, status as u64, 1, 2, 0);
    mem.write_u16(avail + 2, 1);
    mem.write_u16(avail + 4, 0);

    set_up(&mut blk, &mut mem, queue);
    notify(&mut blk, &mut mem).unwrap();

    assert_eq!(mem.read(data, 4), &[1, 2, 3, 4]);
    assert_eq!(mem.read(status, 1), &[0]);
    assert_eq!(mem.read_u16(used + 2), 1);
    assert_eq!(mem.read_u32(used + 4), 0);
    assert_eq!(mem.read_u32(used + 8), 5);
}

#[test]
fn write_request_updates_backend_and_reports_only_status_byte_used() {
    let mut blk = LegacyVirtioBlk::new();
    blk.install_disk_image(vec![0; 1024]);

    let mut mem = TestGuestMemory::new(0x5000);
    let queue = 0x1000;
    let desc = queue;
    let avail = queue + 16 * 8;
    let used = (avail + 4 + 8 * 2 + 0xfff) & !0xfff;
    let header = 0x3000;
    let data = 0x3100;
    let status = 0x3200;

    mem.write_u32(header, 1);
    mem.write_u32(header + 4, 0);
    mem.write_u64(header + 8, 1);
    mem.write(data, &[9, 8, 7, 6]);
    mem.write_desc(desc, 0, header as u64, 16, 1, 1);
    mem.write_desc(desc, 1, data as u64, 4, 1, 2);
    mem.write_desc(desc, 2, status as u64, 1, 2, 0);
    mem.write_u16(avail + 2, 1);
    mem.write_u16(avail + 4, 0);

    set_up(&mut blk, &mut mem, queue);
    notify(&mut blk, &mut mem).unwrap();

    assert_eq!(&blk.disk_image()[512..516], &[9, 8, 7, 6]);
    assert_eq!(mem.read(status, 1), &[0]);
    assert_eq!(mem.read_u16(used + 2), 1);
    assert_eq!(mem.read_u32(used + 8), 1);
}

#[test]
fn notify_without_available_request_returns_idle_notify_result() {
    let mut blk = LegacyVirtioBlk::new();
    blk.install_disk_image(vec![0; 1024]);

    let mut mem = TestGuestMemory::new(0x5000);
    let queue = 0x1000;
    let avail = queue + 16 * 8;
    mem.write_u16(avail + 2, 0);

    set_up(&mut blk, &mut mem, queue);

    let notify = notify(&mut blk, &mut mem).unwrap();
    let isr = blk
        .handle_read(Port::new(LEGACY_BLK_IO_BASE + 0x13), AccessWidth::Byte)
        .unwrap();

    assert!(!notify.used_any);
    assert_eq!(notify.published_used_count, 0);
    assert!(!notify.should_raise_irq);
    assert_eq!(isr, 0);
}

#[test]
fn completed_request_reports_notify_result_and_sets_queue_isr() {
    let mut disk = vec![0; 1024];
    disk[512..516].copy_from_slice(&[1, 2, 3, 4]);
    let mut blk = LegacyVirtioBlk::new();
    blk.install_disk_image(disk);

    let mut mem = TestGuestMemory::new(0x5000);
    let queue = 0x1000;
    let desc = queue;
    let avail = queue + 16 * 8;
    let header = 0x3000;
    let data = 0x3100;
    let status = 0x3200;

    mem.write_u32(header, 0);
    mem.write_u32(header + 4, 0);
    mem.write_u64(header + 8, 1);
    mem.write_desc(desc, 0, header as u64, 16, 1, 1);
    mem.write_desc(desc, 1, data as u64, 4, 1 | 2, 2);
    mem.write_desc(desc, 2, status as u64, 1, 2, 0);
    mem.write_u16(avail + 2, 1);
    mem.write_u16(avail + 4, 0);

    set_up(&mut blk, &mut mem, queue);

    let notify = notify(&mut blk, &mut mem).unwrap();
    let first_isr = blk
        .handle_read(Port::new(LEGACY_BLK_IO_BASE + 0x13), AccessWidth::Byte)
        .unwrap();
    let second_isr = blk
        .handle_read(Port::new(LEGACY_BLK_IO_BASE + 0x13), AccessWidth::Byte)
        .unwrap();

    assert!(notify.used_any);
    assert_eq!(notify.published_used_count, 1);
    assert!(notify.should_raise_irq);
    assert_eq!(first_isr, 1);
    assert_eq!(second_isr, 0);
}

#[test]
fn read_request_without_data_descriptors_reports_ioerr() {
    let mut blk = LegacyVirtioBlk::new();
    blk.install_disk_image(vec![0; 1024]);

    let mut mem = TestGuestMemory::new(0x5000);
    let queue = 0x1000;
    let desc = queue;
    let avail = queue + 16 * 8;
    let used = (avail + 4 + 8 * 2 + 0xfff) & !0xfff;
    let header = 0x3000;
    let status = 0x3200;

    mem.write_u32(header, 0);
    mem.write_u32(header + 4, 0);
    mem.write_u64(header + 8, 0);
    mem.write_desc(desc, 0, header as u64, 16, 1, 1);
    mem.write_desc(desc, 1, status as u64, 1, 2, 0);
    mem.write_u16(avail + 2, 1);
    mem.write_u16(avail + 4, 0);

    set_up(&mut blk, &mut mem, queue);

    let notify = notify(&mut blk, &mut mem).unwrap();

    assert!(notify.used_any);
    assert_eq!(mem.read(status, 1), &[VIRTIO_BLK_S_IOERR]);
    assert_eq!(mem.read_u16(used + 2), 1);
    assert_eq!(mem.read_u32(used + 8), 1);
}

#[test]
fn get_id_with_readonly_data_descriptor_reports_ioerr() {
    let mut blk = LegacyVirtioBlk::new();
    blk.install_disk_image(vec![0; 1024]);

    let mut mem = TestGuestMemory::new(0x5000);
    let queue = 0x1000;
    let desc = queue;
    let avail = queue + 16 * 8;
    let used = (avail + 4 + 8 * 2 + 0xfff) & !0xfff;
    let header = 0x3000;
    let data = 0x3100;
    let status = 0x3200;

    mem.write_u32(header, VIRTIO_BLK_T_GET_ID);
    mem.write_u32(header + 4, 0);
    mem.write_u64(header + 8, 0);
    mem.write_desc(desc, 0, header as u64, 16, 1, 1);
    mem.write_desc(desc, 1, data as u64, 20, 1, 2);
    mem.write_desc(desc, 2, status as u64, 1, 2, 0);
    mem.write_u16(avail + 2, 1);
    mem.write_u16(avail + 4, 0);

    set_up(&mut blk, &mut mem, queue);

    let notify = notify(&mut blk, &mut mem).unwrap();

    assert!(notify.used_any);
    assert_eq!(mem.read(status, 1), &[VIRTIO_BLK_S_IOERR]);
    assert_eq!(mem.read_u16(used + 2), 1);
    assert_eq!(mem.read_u32(used + 8), 1);
}

#[test]
fn get_id_writes_a_null_terminated_serial() {
    let mut blk = LegacyVirtioBlk::new();
    blk.install_disk_image(vec![0; 1024]);

    let mut mem = TestGuestMemory::new(0x5000);
    let queue = 0x1000;
    let desc = queue;
    let avail = queue + 16 * 8;
    let used = (avail + 4 + 8 * 2 + 0xfff) & !0xfff;
    let header = 0x3000;
    let data = 0x3100;
    let status = 0x3200;

    mem.write_u32(header, VIRTIO_BLK_T_GET_ID);
    mem.write_u32(header + 4, 0);
    mem.write_u64(header + 8, 0);
    mem.write(data, &[0xff; 20]);
    mem.write_desc(desc, 0, header as u64, 16, 1, 1);
    mem.write_desc(desc, 1, data as u64, 20, 1 | 2, 2);
    mem.write_desc(desc, 2, status as u64, 1, 2, 0);
    mem.write_u16(avail + 2, 1);
    mem.write_u16(avail + 4, 0);

    set_up(&mut blk, &mut mem, queue);
    notify(&mut blk, &mut mem).unwrap();

    assert_eq!(mem.read(data, 17), b"AXVISOR-UEFI-BLK\0");
    assert_eq!(mem.read(status, 1), &[0]);
    assert_eq!(mem.read_u16(used + 2), 1);
    assert_eq!(mem.read_u32(used + 8), 17);
}

#[test]
fn two_requests_in_one_notification_read_back_what_was_written() {
    let mut blk = LegacyVirtioBlk::new();
    blk.install_disk_image(vec![0; 2048]);

    let mut mem = TestGuestMemory::new(0x8000);
    let queue = 0x1000;
    let avail = queue + 16 * 8;
    let used = 0x2000;

    mem.write_u32(0x3000, 1);
    mem.write_u64(0x3008, 2);
    mem.write(0x3100, &[5; 6]);
    mem.write(0x3180, &[6; 4]);
    mem.write_desc(queue, 0, 0x3000, 16, 1, 1);
    mem.write_desc(queue, 1, 0x3100, 6, 1, 2);
    mem.write_desc(queue, 2, 0x3180, 4, 1, 3);
    mem.write_desc(queue, 3, 0x3200, 1, 2, 0);

    mem.write_u32(0x4000, 0);
    mem.write_u64(0x4008, 2);
    mem.write_desc(queue, 4, 0x4000, 16, 1, 5);
    mem.write_desc(queue, 5, 0x4100, 10, 1 | 2, 6);
    mem.write_desc(queue, 6, 0x4200, 1, 2, 0);

    mem.write_u16(avail + 2, 2);
    mem.write_u16(avail + 4, 0);
    mem.write_u16(avail + 6, 4);

    set_up(&mut blk, &mut mem, queue);
    let result = blk
        .try_write(
            Port::new(LEGACY_BLK_IO_BASE + 0x10),
            AccessWidth::Word,
            0,
            &mut mem.ram,
        )
        .unwrap()
        .unwrap();

    assert_eq!(result.published_used_count, 2);
    assert_eq!(mem.read(0x4100, 10), &[5, 5, 5, 5, 5, 5, 6, 6, 6, 6]);
    assert_eq!(mem.read_u16(used + 2), 2);
    assert_eq!(mem.read_u32(used + 4), 0);
    assert_eq!(mem.read_u32(used + 8), 1);
    assert_eq!(mem.read_u32(used + 12), 4);
    assert_eq!(mem.read_u32(used + 16), 11);

    let again = notify(&mut blk, &mut mem).unwrap();
    assert_eq!(again, LegacyNotifyResult::default());
}

#[test]
fn unknown_request_is_answered_as_unsupported() {
    let mut blk = LegacyVirtioBlk::new();
    blk.install_disk_image(vec![3; 512]);

    let mut mem = TestGuestMemory::new(0x5000);
    mem.write_u32(0x3000, 99);
    mem.write_desc(0x1000, 0, 0x3000, 16, 1, 1);
    mem.write_desc(0x1000, 1, 0x3200, 1, 2, 0);
    mem.write_u16(0x1080 + 2, 1);

    set_up(&mut blk, &mut mem, 0x1000);
    let result = notify(&mut blk, &mut mem).unwrap();

    assert!(result.used_any);
    assert_eq!(mem.read(0x3200, 1), &[2]);
    assert_eq!(mem.read_u32(0x2008), 1);
    assert_eq!(blk.disk_image(), &[3; 512]);
}

#[test]
fn read_past_the_end_of_the_disk_reports_ioerr() {
    let mut blk = LegacyVirtioBlk::new();
    blk.install_disk_image(vec![3; 514]);

    let mut mem = TestGuestMemory::new(0x5000);
    mem.write_u64(0x3008, 1);
    mem.write_desc(0x1000, 0, 0x3000, 16, 1, 1);
    mem.write_desc(0x1000, 1, 0x3100, 3, 1 | 2, 2);
    mem.write_desc(0x1000, 2, 0x3200, 1, 2, 0);
    mem.write_u16(0x1080 + 2, 1);

    set_up(&mut blk, &mut mem, 0x1000);
    notify(&mut blk, &mut mem).unwrap();

    assert_eq!(mem.read(0x3200, 1), &[VIRTIO_BLK_S_IOERR]);
    assert_eq!(mem.read(0x3100, 3), &[0; 3]);
}

#[test]
fn sector_past_the_end_of_the_disk_fails_the_notification() {
    let mut blk = LegacyVirtioBlk::new();
    blk.install_disk_image(vec![3; 512]);

    let mut mem = TestGuestMemory::new(0x5000);
    mem.write_u64(0x3008, 2);
    mem.write_desc(0x1000, 0, 0x3000, 16, 1, 1);
    mem.write_desc(0x1000, 1, 0x3100, 3, 1 | 2, 2);
    mem.write_desc(0x1000, 2, 0x3200, 1, 2, 0);
    mem.write_u16(0x1080 + 2, 1);

    set_up(&mut blk, &mut mem, 0x1000);
    assert_eq!(notify(&mut blk, &mut mem), Err(VmError::InvalidInput));

    let isr = blk
        .handle_read(Port::new(LEGACY_BLK_IO_BASE + 0x13), AccessWidth::Byte)
        .unwrap();
    assert_eq!(isr, 0);
    assert_eq!(mem.read_u16(0x2002), 0);
}

#[test]
fn looping_chain_is_refused() {
    let mut mem = TestGuestMemory::new(0x5000);
    mem.write_desc(0x1000, 0, 0x3000, 16, 1, 1);
    mem.write_desc(0x1000, 1, 0x3100, 3, 1, 0);

    let mut queue = LegacyQueue::new();
    queue.set_pfn(1);

    assert!(queue.collect_chain(0, &mem.ram).is_err());
    assert!(queue.collect_chain(8, &mem.ram).is_err());
    mem.write_desc(0x1000, 1, 0x3100, 3, 0, 0);
    let chain = queue.collect_chain(0, &mem.ram).unwrap();
    assert_eq!(chain.len(), 2);
    assert_eq!(chain[1].addr, 0x3100);
}

#[test]
fn queue_without_a_page_is_refused() {
    let mut blk = LegacyVirtioBlk::default();
    let mut mem = TestGuestMemory::new(0x1000);
    assert_eq!(notify(&mut blk, &mut mem), Err(VmError::InvalidInput));
    assert_eq!(LegacyQueue::new().used_ring_gpa(), Err(VmError::InvalidInput));
    let mut queue = LegacyQueue::new();
    queue.set_pfn(1);
    assert_eq!(queue.avail_ring_gpa(), Ok(0x1080));
    assert_eq!(queue.used_ring_gpa(), Ok(0x2000));
}

#[test]
fn registers_keep_what_fits_them() {
    let mut blk = LegacyVirtioBlk::new();
    let mut ram = GuestRam::new(0, 0, vec![0; 16]);
    let base = LEGACY_BLK_IO_BASE;

    blk.handle_write(Port::new(base + 0x0c), AccessWidth::Word, 0x1_0000, &mut ram)
        .unwrap();
    blk.handle_write(Port::new(base + 0x12), AccessWidth::Byte, 0x10f, &mut ram)
        .unwrap();
    blk.handle_write(Port::new(base + 0x08), AccessWidth::Dword, 0x1234, &mut ram)
        .unwrap();
    blk.handle_write(Port::new(base + 0x08), AccessWidth::Word, 0x9999, &mut ram)
        .unwrap();

    assert_eq!(blk.handle_read(Port::new(base + 0x0c), AccessWidth::Word), Ok(1));
    assert_eq!(blk.handle_read(Port::new(base + 0x12), AccessWidth::Byte), Ok(0x0f));
    assert_eq!(blk.handle_read(Port::new(base + 0x08), AccessWidth::Dword), Ok(0x1234));
    assert_eq!(blk.handle_read(Port::new(base), AccessWidth::Dword), Ok(0));
}

#[test]
fn ports_outside_the_device_are_refused() {
    let mut blk = LegacyVirtioBlk::new();
    let mut ram = GuestRam::new(0, 0, vec![0; 16]);
    assert!(LegacyVirtioBlk::owns_port(Port::new(0x6000)));
    assert!(LegacyVirtioBlk::owns_port(Port::new(0x607f)));
    assert!(!LegacyVirtioBlk::owns_port(Port::new(0x6080)));
    assert!(!LegacyVirtioBlk::owns_port(Port::new(0x5fff)));
    assert_eq!(
        blk.handle_read(Port::new(0x6080), AccessWidth::Byte),
        Err(VmError::InvalidInput)
    );
    assert_eq!(
        blk.handle_write(Port::new(0x5fff), AccessWidth::Byte, 0, &mut ram),
        Err(VmError::InvalidInput)
    );
}

#[test]
fn guest_ram_writes_the_mapped_part_of_a_buffer() {
    let mut ram = GuestRam::new(0x100, 0x9000, vec![0; 4]);
    assert_eq!(ram.write_buffer(0x102, &[1, 2, 3]), Err(VmError::InvalidInput));
    assert_eq!(ram.as_slice(), &[0, 0, 1, 2]);
    assert_eq!(ram.write_object(0x102, &[9, 9, 9]), Err(VmError::InvalidInput));
    assert_eq!(ram.as_slice(), &[0, 0, 1, 2]);
    assert_eq!(ram.read_buffer(0x101, 3), Ok(vec![0, 1, 2]));
    assert_eq!(ram.read_buffer(0xff, 2), Err(VmError::InvalidInput));
    assert_eq!(ram.read_buffer(0, 0), Ok(vec![]));
    assert_eq!(ram.translate(0x103), Some(0x9003));
    assert_eq!(ram.translate(0x104), None);
    assert_eq!(ram.write_span(0x100, &[7, 8]), Ok(()));
    assert_eq!(ram.read_span(0x100, 4), Ok(vec![7, 8, 1, 2]));
    assert_eq!(ram.write_span(0x103, &[5, 5]), Err(VmError::InvalidInput));
    assert_eq!(ram.as_slice(), &[7, 8, 1, 2]);
}

#[test]
fn requests_are_answered_in_the_order_of_the_available_ring() {
    let mut blk = LegacyVirtioBlk::new();
    blk.install_disk_image(vec![1; 512]);
    let mut mem = TestGuestMemory::new(0x5000);
    let heads = [6u16, 0, 4, 2];
    for (i, &head) in heads.iter().enumerate() {
        let at = 0x3000 + 0x100 * i as u64;
        mem.write_u32(at as usize, 99);
        mem.write_desc(0x1000, head as usize, at, 16, 1, head + 1);
        mem.write_desc(0x1000, head as usize + 1, at + 0x80, 1, 2, 0);
        mem.write_u16(0x1080 + 4 + 2 * i, head);
    }
    mem.write_u16(0x1080 + 2, 4);
    mem.write_u16(0x2002, 0xfffe);
    set_up(&mut blk, &mut mem, 0x1000);

    let result = blk.try_write(
        Port::new(LEGACY_BLK_IO_BASE + 0x10),
        AccessWidth::Word,
        0,
        &mut mem.ram,
    );

    assert_eq!(result.unwrap().unwrap().published_used_count, 4);
    assert_eq!(mem.read_u16(0x2002), 2);
    for (j, &head) in heads.iter().enumerate() {
        let slot = (0xfffe + j) % 0x1_0000 % 8;
        assert_eq!(mem.read_u32(0x2004 + 8 * slot), head as u32);
    }
}

#[test]
fn try_write_passes_errors_and_registers_on() {
    let mut blk = LegacyVirtioBlk::new();
    let mut ram = GuestRam::new(0, 0, vec![0; 16]);
    let notify = Port::new(LEGACY_BLK_IO_BASE + 0x10);
    assert_eq!(
        blk.try_write(notify, AccessWidth::Word, 0, &mut ram),
        Some(Err(VmError::InvalidInput))
    );
    assert_eq!(
        blk.try_write(Port::new(0x5fff), AccessWidth::Word, 0, &mut ram),
        Some(Err(VmError::InvalidInput))
    );
    let size = Port::new(LEGACY_BLK_IO_BASE + 0x0c);
    assert_eq!(
        blk.try_write(size, AccessWidth::Word, 4, &mut ram),
        Some(Ok(LegacyNotifyResult::default()))
    );
    assert_eq!(blk.handle_read(size, AccessWidth::Word), Ok(4));
}
