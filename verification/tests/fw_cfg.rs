use axvm_devices::bus::{AccessWidth, Port};
use axvm_devices::error::VmError;
use axvm_devices::fw_cfg::content::FwCfgContent;
use axvm_devices::fw_cfg::device::{FwCfgDevice, FwCfgDmaRequest, FW_CFG_IO_DATA};
use axvm_devices::fw_cfg::directory::parse_file_directory;
use axvm_devices::fw_cfg::inner::{
    build_e820, FwCfgInner, QEMU_FW_CFG_ITEM_FILE_DIR, QEMU_FW_CFG_ITEM_INTERFACE_VERSION,
    QEMU_FW_CFG_ITEM_SIGNATURE,
};
use axvm_devices::guest_memory::{GuestMemory, GuestRam};

#[test]
fn known_item_reads_reset_offset_on_select() {
    let mut fw_cfg = FwCfgInner::new();
    fw_cfg.configure(&[], 1);

    fw_cfg.select(QEMU_FW_CFG_ITEM_SIGNATURE);
    assert_eq!(fw_cfg.read_port(AccessWidth::Word), 0x4551);
    fw_cfg.select(QEMU_FW_CFG_ITEM_SIGNATURE);
    assert_eq!(fw_cfg.read_port(AccessWidth::Word), 0x4551);
}

#[test]
fn content_model_supports_bytes_and_u32() {
    let bytes = FwCfgContent::Bytes(b"ab".to_vec());
    let number = FwCfgContent::U32(0x1122_3344);

    assert_eq!(bytes.len().unwrap(), 2);
    assert_eq!(number.len().unwrap(), 4);
}

#[test]
fn selected_item_reads_data_and_zero_fills_after_end() {
    let mut fw_cfg = FwCfgInner::new();
    fw_cfg.configure(&[], 1);

    fw_cfg.select(QEMU_FW_CFG_ITEM_INTERFACE_VERSION);

    let first = fw_cfg.read_port(AccessWidth::Dword);
    let second = fw_cfg.read_port(AccessWidth::Dword);

    assert_eq!(first, 2);
    assert_eq!(second, 0);
}

#[test]
fn file_directory_lists_e820_file() {
    let mut fw_cfg = FwCfgInner::new();
    fw_cfg.configure(&[(0, 0x1000)], 1);

    fw_cfg.select(QEMU_FW_CFG_ITEM_FILE_DIR);
    let dir = fw_cfg.read_bytes(64);

    assert_eq!(u32::from_be_bytes(dir[0..4].try_into().unwrap()), 1);
    assert!(dir[8..]
        .windows(b"etc/e820".len())
        .any(|w| w == b"etc/e820"));
}

#[test]
fn add_file_item_updates_directory_and_allocates_selectors() {
    let mut fw_cfg = FwCfgInner::new();
    fw_cfg.configure(&[], 1);

    let selector = fw_cfg
        .add_file_item(
            "opt/org.test/custom",
            FwCfgContent::Bytes(b"hello".to_vec()),
        )
        .unwrap();

    assert_eq!(selector, 0x20);
    fw_cfg.select(QEMU_FW_CFG_ITEM_FILE_DIR);
    let dir = fw_cfg.read_bytes(128);
    assert!(dir
        .windows(b"opt/org.test/custom".len())
        .any(|w| w == b"opt/org.test/custom"));

    fw_cfg.select(selector);
    assert_eq!(fw_cfg.read_bytes(8)[0..5], *b"hello");
}

#[test]
fn dma_address_write_sets_one_pending_descriptor() {
    let mut fw_cfg = FwCfgInner::new();

    fw_cfg.write_dma_address_part(0x1234, true);
    assert!(fw_cfg.take_pending_dma().is_none());

    fw_cfg.write_dma_address_part(0x5678, false);

    let expected = ((u32::from_be(0x1234) as u64) << 32) | u32::from_be(0x5678) as u64;
    assert_eq!(fw_cfg.take_pending_dma(), Some(expected));
    assert!(fw_cfg.take_pending_dma().is_none());
}

#[test]
fn dma_request_parses_big_endian_descriptor() {
    let mut descriptor = [0u8; 16];
    descriptor[0..4].copy_from_slice(&0x0008_0002u32.to_be_bytes());
    descriptor[4..8].copy_from_slice(&0x0000_1000u32.to_be_bytes());
    descriptor[8..16].copy_from_slice(&0x1234_5678_9abc_def0u64.to_be_bytes());

    let request = FwCfgDmaRequest::parse(descriptor);

    assert_eq!(request.control, 0x0008_0002);
    assert_eq!(request.length, 0x1000);
    assert_eq!(request.address, 0x1234_5678_9abc_def0);
}

#[test]
fn directory_that_was_built_reads_back() {
    let mut fw_cfg = FwCfgInner::new();
    fw_cfg.configure(&[(0, 0x1000), (0x1000, 0x1000)], 1);
    fw_cfg
        .add_file_item("etc/naïve", FwCfgContent::U32(7))
        .unwrap();

    fw_cfg.select(QEMU_FW_CFG_ITEM_FILE_DIR);
    let dir = fw_cfg.read_bytes(4 + 2 * 64);
    let entries = parse_file_directory(&dir).unwrap();

    assert_eq!(entries.len(), 2);
    assert_eq!(entries[0].name, "etc/e820");
    assert_eq!(entries[0].selector, 0x8000);
    assert_eq!(entries[0].size, 40);
    assert_eq!(entries[1].name, "etc/naïve");
    assert_eq!(entries[1].selector, 0x20);
    assert_eq!(entries[1].size, 4);
}

#[test]
fn malformed_directory_is_refused() {
    assert_eq!(parse_file_directory(&[0, 0, 0]).unwrap_err(), VmError::InvalidData);
    assert_eq!(
        parse_file_directory(&[0, 0, 0, 1, 9]).unwrap_err(),
        VmError::InvalidData
    );
    assert!(parse_file_directory(&[0, 0, 0, 0]).unwrap().is_empty());

    let mut dir = vec![0u8; 68];
    dir[3] = 1;
    dir[12] = 0xff;
    assert_eq!(parse_file_directory(&dir).unwrap_err(), VmError::InvalidData);
    dir[12] = b'x';
    assert_eq!(parse_file_directory(&dir).unwrap()[0].name, "x");
    for byte in &mut dir[12..] {
        *byte = b'y';
    }
    assert_eq!(parse_file_directory(&dir).unwrap()[0].name.len(), 56);
}

#[test]
fn memory_map_is_cut_at_four_gib() {
    let map = build_e820(&[(0x1000, 0x2000), (0xffff_f000, 0x10_0000), (0x1_0000_0000, 0x1000)]);
    assert_eq!(map.len(), 40);
    assert_eq!(map[0..8], 0x1000u64.to_le_bytes());
    assert_eq!(map[8..16], 0x2000u64.to_le_bytes());
    assert_eq!(map[16..20], 1u32.to_le_bytes());
    assert_eq!(map[20..28], 0xffff_f000u64.to_le_bytes());
    assert_eq!(map[28..36], 0x1000u64.to_le_bytes());
}

#[test]
fn long_name_and_full_directory_are_refused() {
    let mut fw_cfg = FwCfgDevice::new();
    let name = "x".repeat(56);
    assert_eq!(
        fw_cfg.add_file_item(&name, FwCfgContent::U32(1)),
        Err(VmError::InvalidInput)
    );
    assert_eq!(fw_cfg.add_file_item(&name[1..], FwCfgContent::U32(1)), Ok(0x20));
    assert_eq!(fw_cfg.add_file_item("b", FwCfgContent::U32(2)), Ok(0x21));
}

#[test]
fn unknown_item_reads_as_zeros() {
    let mut fw_cfg = FwCfgDevice::new();
    assert_eq!(fw_cfg.read_string_bytes(3), vec![0, 0, 0]);
    fw_cfg
        .handle_write(Port::new(0x510), AccessWidth::Word, 0x77)
        .unwrap();
    assert_eq!(fw_cfg.handle_read(Port::new(FW_CFG_IO_DATA), AccessWidth::Qword), Ok(0));
    assert_eq!(fw_cfg.handle_read(Port::new(0x512), AccessWidth::Byte), Ok(0));
}

fn descriptor(control: u32, length: u32, address: u64) -> Vec<u8> {
    let mut raw = control.to_be_bytes().to_vec();
    raw.extend_from_slice(&length.to_be_bytes());
    raw.extend_from_slice(&address.to_be_bytes());
    raw
}

#[test]
fn dma_transfers_select_read_skip_and_write() {
    let mut fw_cfg = FwCfgDevice::default();
    fw_cfg.configure(&[], 3);
    let mut ram = GuestRam::new(0, 0, vec![0xaa; 0x200]);

    ram.write_buffer(0x10, &descriptor(0x0000_0000 | 8 | 2, 3, 0x100)).unwrap();
    assert_eq!(fw_cfg.execute_dma(0x10, &mut ram), Ok(()));
    assert_eq!(&ram.as_slice()[0x100..0x104], b"QEM\xaa");
    assert_eq!(&ram.as_slice()[0x10..0x14], &[0; 4]);
    assert_eq!(fw_cfg.read_string_bytes(2), b"U\0");

    ram.write_buffer(0x10, &descriptor(0x0005_0000 | 8 | 4, 1, 0)).unwrap();
    assert_eq!(fw_cfg.execute_dma(0x10, &mut ram), Ok(()));
    assert_eq!(fw_cfg.read_string_bytes(2), vec![0, 0]);

    ram.write_buffer(0x100, b"qm").unwrap();
    ram.write_buffer(0x10, &descriptor(0x0000_0000 | 8 | 16 | 1, 2, 0x100)).unwrap();
    assert_eq!(fw_cfg.execute_dma(0x10, &mut ram), Ok(()));
    assert_eq!(&ram.as_slice()[0x10..0x14], &[0, 0, 0, 1]);
    assert_eq!(fw_cfg.read_string_bytes(4), b"qmMU");

    ram.write_buffer(0x10, &descriptor(16, 4, 0x1fe)).unwrap();
    assert_eq!(fw_cfg.execute_dma(0x10, &mut ram), Err(VmError::InvalidInput));
}

#[test]
fn writes_change_the_selected_item_at_the_position() {
    let mut fw_cfg = FwCfgInner::new();
    fw_cfg.write_bytes(b"nothing");
    assert_eq!(fw_cfg.read_bytes(2), vec![0, 0]);
    fw_cfg.configure(&[(0, 0x1000)], 1);

    fw_cfg.select(0);
    assert_eq!(fw_cfg.read_bytes(1), b"Q");
    fw_cfg.write_bytes(b"xy");
    assert_eq!(fw_cfg.read_bytes(3), b"xyU");
    fw_cfg.write_bytes(b"z");
    fw_cfg.select(0);
    assert_eq!(fw_cfg.read_bytes(5), b"QxyU\0");

    fw_cfg.select(0);
    fw_cfg.skip_bytes(3);
    fw_cfg.write_bytes(b"vwxyz");
    fw_cfg.select(0);
    assert_eq!(fw_cfg.read_bytes(6), b"Qxyv\0\0");

    fw_cfg.select(1);
    fw_cfg.skip_bytes(1);
    fw_cfg.write_bytes(&[7, 8]);
    fw_cfg.select(1);
    assert_eq!(fw_cfg.read_bytes(4), vec![2, 7, 8, 0]);

    fw_cfg.select(0x8000);
    fw_cfg.write_bytes(&[9]);
    fw_cfg.select(0x8000);
    assert_eq!(fw_cfg.read_bytes(2), vec![9, 0]);
}

#[test]
fn written_directory_is_current_again_once_a_file_is_added() {
    let mut fw_cfg = FwCfgInner::new();
    fw_cfg.configure(&[], 1);
    fw_cfg.select(QEMU_FW_CFG_ITEM_FILE_DIR);
    fw_cfg.write_bytes(&[1, 2, 3, 4]);
    fw_cfg.select(QEMU_FW_CFG_ITEM_FILE_DIR);
    assert_eq!(fw_cfg.read_bytes(4), vec![1, 2, 3, 4]);
    fw_cfg.add_file_item("etc/x", FwCfgContent::U32(1)).unwrap();
    fw_cfg.select(QEMU_FW_CFG_ITEM_FILE_DIR);
    let dir = fw_cfg.read_bytes(4 + 2 * 64);
    assert_eq!(parse_file_directory(&dir).unwrap().len(), 2);
}

#[test]
fn dma_outside_memory_is_refused() {
    let mut fw_cfg = FwCfgDevice::new();
    fw_cfg.configure(&[], 1);
    let mut ram = GuestRam::new(0, 0, vec![0; 0x40]);
    assert_eq!(fw_cfg.execute_dma(0x38, &mut ram), Err(VmError::InvalidInput));
    ram.write_buffer(0, &descriptor(8 | 2, 4, 0x3e)).unwrap();
    assert_eq!(fw_cfg.execute_dma(0, &mut ram), Err(VmError::InvalidInput));
    assert_eq!(&ram.as_slice()[0x3e..], b"QE");
}

#[test]
fn dma_address_ports_take_double_words() {
    let mut fw_cfg = FwCfgDevice::new();
    assert_eq!(fw_cfg.address_range().start, Port::new(0x510));
    assert_eq!(fw_cfg.address_range().end, Port::new(0x518));
    fw_cfg.handle_write(Port::new(0x518), AccessWidth::Dword, 1).unwrap();
    assert_eq!(fw_cfg.take_pending_dma(), None);
    fw_cfg.handle_write(Port::new(0x514), AccessWidth::Dword, 0).unwrap();
    fw_cfg.handle_write(Port::new(0x518), AccessWidth::Word, 1).unwrap();
    fw_cfg
        .handle_write(Port::new(0x518), AccessWidth::Dword, 0x0010_0000)
        .unwrap();
    assert_eq!(fw_cfg.take_pending_dma(), Some(0x1000));
}

#[test]
fn position_without_an_item_has_a_limit() {
    let mut fw_cfg = FwCfgInner::new();
    assert!(fw_cfg.can_skip(usize::MAX));
    fw_cfg.skip_bytes(usize::MAX);
    assert!(fw_cfg.can_skip(0));
    assert!(!fw_cfg.can_skip(1));

    fw_cfg.select(0);
    assert!(fw_cfg.can_skip(usize::MAX));
    fw_cfg.configure(&[], 1);
    fw_cfg.skip_bytes(usize::MAX);
    assert!(fw_cfg.can_skip(1));
    assert_eq!(fw_cfg.read_bytes(1), vec![0]);
}

#[test]
fn transfers_are_asked_about_first() {
    let mut fw_cfg = FwCfgDevice::new();
    let mut ram = GuestRam::new(0, 0, vec![0; 0x40]);
    ram.write_buffer(0, &descriptor(4, 0xffff_ffff, 0)).unwrap();
    assert!(fw_cfg.can_execute_dma(0, &ram));
    assert!(fw_cfg.can_execute_dma(0x1000, &ram));
    assert_eq!(fw_cfg.execute_dma(0, &mut ram), Ok(()));
}

#[test]
fn first_file_of_an_unconfigured_device_reads_back() {
    let mut fw_cfg = FwCfgInner::new();
    let selector = fw_cfg.add_file_item("etc/x", FwCfgContent::U32(0x0403_0201)).unwrap();
    assert_eq!(selector, 0x20);
    fw_cfg.select(selector);
    assert_eq!(fw_cfg.read_bytes(5), vec![1, 2, 3, 4, 0]);
}
