use std::collections::BTreeMap;

use axvm_devices::acpi_blobs::{
    collect_required_acpi_blobs, directory_size, ACPI_RSDP_FILE, ACPI_TABLES_FILE,
    ACPI_TABLE_LOADER_FILE,
};
use axvm_devices::error::VmError;
use axvm_devices::fw_cfg::directory::FwCfgFileDirEntry;

#[test]
fn collect_required_acpi_blobs_reads_all_three_files() {
    let entries = vec![
        FwCfgFileDirEntry {
            size: 3,
            selector: 0x20,
            name: String::from(ACPI_TABLES_FILE),
        },
        FwCfgFileDirEntry {
            size: 2,
            selector: 0x21,
            name: String::from(ACPI_RSDP_FILE),
        },
        FwCfgFileDirEntry {
            size: 4,
            selector: 0x22,
            name: String::from(ACPI_TABLE_LOADER_FILE),
        },
    ];
    let payloads = BTreeMap::from([
        (0x20, b"tab".to_vec()),
        (0x21, b"rs".to_vec()),
        (0x22, b"load".to_vec()),
    ]);

    let blobs = collect_required_acpi_blobs(&entries, |entry: &FwCfgFileDirEntry| {
        Ok(payloads.get(&entry.selector).cloned().unwrap())
    })
    .unwrap();

    assert_eq!(
        blobs.entries(),
        [
            (ACPI_TABLES_FILE, b"tab".as_slice()),
            (ACPI_RSDP_FILE, b"rs".as_slice()),
            (ACPI_TABLE_LOADER_FILE, b"load".as_slice()),
        ]
    );
}

#[test]
fn collect_required_acpi_blobs_rejects_missing_required_file() {
    let entries = vec![
        FwCfgFileDirEntry {
            size: 3,
            selector: 0x20,
            name: String::from(ACPI_TABLES_FILE),
        },
        FwCfgFileDirEntry {
            size: 2,
            selector: 0x21,
            name: String::from(ACPI_RSDP_FILE),
        },
    ];

    let err = collect_required_acpi_blobs(&entries, |_entry: &FwCfgFileDirEntry| Ok(Vec::new()))
        .unwrap_err();

    assert_eq!(err.kind(), VmError::NotFound);
    assert!(err.message().contains(ACPI_TABLE_LOADER_FILE));
}

#[test]
fn file_that_cannot_be_read_is_the_error() {
    let entries = vec![FwCfgFileDirEntry {
        size: 3,
        selector: 0x20,
        name: String::from(ACPI_TABLES_FILE),
    }];
    let err = collect_required_acpi_blobs(&entries, |_entry: &FwCfgFileDirEntry| {
        Err(VmError::InvalidData)
    })
    .unwrap_err();
    assert_eq!(err.kind(), VmError::InvalidData);
    assert_eq!(err.message(), "outer fw_cfg file cannot be read");
}

#[test]
fn directory_with_too_many_entries_is_refused() {
    assert_eq!(directory_size(&[0, 0, 0x10, 0]), Ok(4096 * 64));
    assert_eq!(directory_size(&[0, 0, 0x10, 1]), Err(VmError::InvalidData));
}
