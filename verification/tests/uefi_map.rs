use axvm_devices::uefi_map::{
    decode_map, map_buffer_size, memory_type_name, summarize, MapError, MapLine, MemoryDescriptor,
    EFI_BUFFER_TOO_SMALL,
};

#[test]
fn types_have_names() {
    assert_eq!(memory_type_name(0), "Reserved");
    assert_eq!(memory_type_name(7), "Conventional");
    assert_eq!(memory_type_name(8), "Unknown");
    assert_eq!(memory_type_name(12), "MMIOPort");
    assert_eq!(memory_type_name(99), "Unknown");
}

#[test]
fn buffer_has_room_for_a_few_more_entries() {
    assert_eq!(map_buffer_size(EFI_BUFFER_TOO_SMALL, 480, 48, 65536), Ok(864));
    assert_eq!(map_buffer_size(0, 480, 48, 65536), Err(MapError::Probe));
    assert_eq!(map_buffer_size(0, 480, usize::MAX, 65536), Err(MapError::Probe));
    assert_eq!(
        map_buffer_size(EFI_BUFFER_TOO_SMALL, 480, 0, 65536),
        Err(MapError::Probe)
    );
    assert_eq!(
        map_buffer_size(EFI_BUFFER_TOO_SMALL, 480, 48, 863),
        Err(MapError::TooLarge(864))
    );
}

#[test]
fn entries_are_read_in_steps() {
    let mut raw = vec![0u8; 100];
    raw[0] = 7;
    raw[8..16].copy_from_slice(&0x1000u64.to_le_bytes());
    raw[24..32].copy_from_slice(&2u64.to_le_bytes());
    raw[48] = 3;
    raw[72..80].copy_from_slice(&5u64.to_le_bytes());
    assert_eq!(
        decode_map(&raw, 100, 48),
        vec![
            MemoryDescriptor {
                typ: 7,
                phys_start: 0x1000,
                number_of_pages: 2
            },
            MemoryDescriptor {
                typ: 3,
                phys_start: 0,
                number_of_pages: 5
            },
        ]
    );
}

#[test]
fn summary_counts_pages() {
    let mut map = vec![
        MemoryDescriptor {
            typ: 7,
            phys_start: 0x1000,
            number_of_pages: 512,
        };
        17
    ];
    map[16].typ = 1;
    let summary = summarize(&map);
    assert_eq!(summary.lines.len(), 16);
    assert_eq!(
        summary.lines[0],
        MapLine {
            typ: 7,
            start: 0x1000,
            end: 0x1000 + 512 * 4096,
            pages: 512
        }
    );
    assert_eq!(summary.more, 1);
    assert_eq!(summary.total_mib, 34);
    assert_eq!(summary.conventional_mib, 32);
}
