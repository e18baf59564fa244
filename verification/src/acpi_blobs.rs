//! The ACPI files that an outer firmware configuration device offers, and how they are collected.

use vstd::prelude::*;

use crate::bytes;
use crate::error::VmError;
use crate::fw_cfg::directory::{FwCfgFileDirEntry, FW_CFG_FILE_DIR_ENTRY_SIZE};

verus! {

/// The file that holds the ACPI tables.
pub const ACPI_TABLES_FILE: &'static str = "etc/acpi/tables";

/// The file that holds the root pointer of the ACPI tables.
pub const ACPI_RSDP_FILE: &'static str = "etc/acpi/rsdp";

/// The file that tells the firmware how to place the tables.
pub const ACPI_TABLE_LOADER_FILE: &'static str = "etc/table-loader";

/// How many entries a directory may have.
pub const MAX_FW_CFG_FILE_DIR_ENTRIES: usize = 4096;

/// The three ACPI files.
#[derive(Clone, Debug)]
pub struct OuterQemuAcpiFwCfgBlobs {
    tables: Vec<u8>,
    rsdp: Vec<u8>,
    table_loader: Vec<u8>,
}

impl OuterQemuAcpiFwCfgBlobs {
    /// The ACPI tables.
    pub closed spec fn spec_tables(self) -> Seq<u8> {
        self.tables@
    }

    /// The root pointer of the ACPI tables.
    pub closed spec fn spec_rsdp(self) -> Seq<u8> {
        self.rsdp@
    }

    /// How to place the tables.
    pub closed spec fn spec_table_loader(self) -> Seq<u8> {
        self.table_loader@
    }

    /// The files with their names.
    pub fn entries(&self) -> (e: [(&'static str, &[u8]); 3])
        ensures
            e@[0].0@ == ACPI_TABLES_FILE@,
            e@[0].1@ == self.spec_tables(),
            e@[1].0@ == ACPI_RSDP_FILE@,
            e@[1].1@ == self.spec_rsdp(),
            e@[2].0@ == ACPI_TABLE_LOADER_FILE@,
            e@[2].1@ == self.spec_table_loader(),
    {
        [
            (ACPI_TABLES_FILE, self.tables.as_slice()),
            (ACPI_RSDP_FILE, self.rsdp.as_slice()),
            (ACPI_TABLE_LOADER_FILE, self.table_loader.as_slice()),
        ]
    }
}

/// Why the ACPI files could not be collected.
#[derive(Debug)]
pub enum AcpiBlobError {
    /// The directory does not list the file with this name.
    Missing(String),
    /// A listed file could not be read.
    Read(VmError),
}

impl AcpiBlobError {
    /// The kind of the error.
    pub fn kind(&self) -> (kind: VmError)
        ensures
            kind == match *self {
                AcpiBlobError::Missing(_) => VmError::NotFound,
                AcpiBlobError::Read(err) => err,
            },
    {
        match self {
            AcpiBlobError::Missing(_) => VmError::NotFound,
            AcpiBlobError::Read(err) => *err,
        }
    }

    /// What went wrong, in words. The message on a missing file names the file.
    pub fn message(&self) -> (text: String)
        ensures
            text@ == match *self {
                AcpiBlobError::Missing(name) => "outer fw_cfg file "@ + name@ + " is missing"@,
                AcpiBlobError::Read(_) => "outer fw_cfg file cannot be read"@,
            },
    {
        match self {
            AcpiBlobError::Missing(name) => {
                let mut text = "outer fw_cfg file ".to_owned();
                text.append(name.as_str());
                text.append(" is missing");
                text
            },
            AcpiBlobError::Read(_) => "outer fw_cfg file cannot be read".to_owned(),
        }
    }
}

/// How many bytes of entries follow the header of a directory. A directory with more entries than
/// the limit is malformed.
pub fn directory_size(header: &[u8]) -> (r: Result<usize, VmError>)
    requires
        header@.len() == 4,
    ensures
        r == if bytes::be_u32_at(header@, 0) > 4096 {
            Err::<usize, VmError>(VmError::InvalidData)
        } else {
            Ok((64 * bytes::be_u32_at(header@, 0)) as usize)
        },
{
    let count: u32 = bytes::read_be_u32(header, 0);
    if count > MAX_FW_CFG_FILE_DIR_ENTRIES as u32 {
        return Err(VmError::InvalidData);
    }
    Ok(FW_CFG_FILE_DIR_ENTRY_SIZE * (count as usize))
}

/// The index of the first entry with the name, from index `i` on.
pub open spec fn find(entries: Seq<FwCfgFileDirEntry>, name: Seq<char>, i: nat) -> Option<int>
    decreases entries.len() - i,
{
    if i >= entries.len() {
        None
    } else if entries[i as int].name@ == name {
        Some(i as int)
    } else {
        find(entries, name, i + 1)
    }
}

/// An entry that is found is in the directory, has the name, and is the first one that has it.
pub proof fn found_entry_has_name(entries: Seq<FwCfgFileDirEntry>, name: Seq<char>, i: nat)
    ensures
        find(entries, name, i) matches Some(k) ==> {
            &&& i <= k < entries.len()
            &&& entries[k].name@ == name
            &&& forall|j: int| i <= j < k ==> (#[trigger] entries[j]).name@ != name
        },
        find(entries, name, i) is None ==> forall|j: int|
            i <= j < entries.len() ==> (#[trigger] entries[j]).name@ != name,
    decreases entries.len() - i,
{
    if i < entries.len() && entries[i as int].name@ != name {
        found_entry_has_name(entries, name, i + 1);
    }
}

/// Whether two texts are the same.
fn same_text(a: &str, b: &str) -> (same: bool)
    ensures
        same == (a@ == b@),
{
    let x: &[u8] = a.as_bytes();
    let y: &[u8] = b.as_bytes();
    proof {
        vstd::utf8::encode_utf8_decode_utf8(a@);
        vstd::utf8::encode_utf8_decode_utf8(b@);
    }
    if x.len() != y.len() {
        return false;
    }
    let mut i: usize = 0;
    while i < x.len()
        invariant
            i <= x@.len(),
            x@.len() == y@.len(),
            x@ == vstd::utf8::encode_utf8(a@),
            y@ == vstd::utf8::encode_utf8(b@),
            forall|k: int| 0 <= k < i ==> x@[k] == y@[k],
        decreases x@.len() - i,
    {
        if x[i] != y[i] {
            return false;
        }
        i = i + 1;
    }
    assert(x@ =~= y@);
    true
}

/// The index of the first entry with the name.
pub fn find_entry(entries: &[FwCfgFileDirEntry], name: &str) -> (r: Option<usize>)
    ensures
        match find(entries@, name@, 0) {
            Some(k) => r matches Some(i) && i == k && k < entries@.len(),
            None => r is None,
        },
{
    let mut i: usize = 0;
    while i < entries.len()
        invariant
            i <= entries@.len(),
            find(entries@, name@, 0) == find(entries@, name@, i as nat),
        decreases entries@.len() - i,
    {
        if same_text(entries[i].name.as_str(), name) {
            return Some(i);
        }
        i = i + 1;
    }
    None
}

/// What reading a named file comes to: the file is missing, or `read_entry` gave this result for
/// its entry.
pub open spec fn named_file_outcome<F: Fn(&FwCfgFileDirEntry) -> Result<Vec<u8>, VmError>>(
    entries: Seq<FwCfgFileDirEntry>,
    name: Seq<char>,
    read_entry: F,
    outcome: Result<Vec<u8>, AcpiBlobError>,
) -> bool {
    match find(entries, name, 0) {
        None => outcome matches Err(AcpiBlobError::Missing(missing)) && missing@ == name,
        Some(k) => match outcome {
            Ok(content) => call_ensures(read_entry, (&entries[k],), Ok(content)),
            Err(AcpiBlobError::Read(err)) => call_ensures(
                read_entry,
                (&entries[k],),
                Err::<Vec<u8>, VmError>(err),
            ),
            Err(AcpiBlobError::Missing(_)) => false,
        },
    }
}

/// Reading a named file gave its content.
pub open spec fn named_file_read<F: Fn(&FwCfgFileDirEntry) -> Result<Vec<u8>, VmError>>(
    entries: Seq<FwCfgFileDirEntry>,
    name: Seq<char>,
    read_entry: F,
) -> bool {
    exists|content: Vec<u8>|
        #[trigger] named_file_outcome(entries, name, read_entry, Ok(content))
}

/// Reads the file with the given name.
pub fn read_named_fw_cfg_file<F: Fn(&FwCfgFileDirEntry) -> Result<Vec<u8>, VmError>>(
    entries: &[FwCfgFileDirEntry],
    name: &str,
    read_entry: &F,
) -> (r: Result<Vec<u8>, AcpiBlobError>)
    requires
        forall|i: int|
            0 <= i < entries@.len() ==> call_requires(*read_entry, (&#[trigger] entries@[i],)),
    ensures
        named_file_outcome(entries@, name@, *read_entry, r),
{
    match find_entry(entries, name) {
        None => Err(AcpiBlobError::Missing(name.to_owned())),
        Some(i) => match read_entry(&entries[i]) {
            Ok(content) => Ok(content),
            Err(err) => Err(AcpiBlobError::Read(err)),
        },
    }
}

/// The names of the required files, in the order in which they are read.
pub open spec fn required_file(k: int) -> Seq<char> {
    if k == 0 {
        ACPI_TABLES_FILE@
    } else if k == 1 {
        ACPI_RSDP_FILE@
    } else {
        ACPI_TABLE_LOADER_FILE@
    }
}

/// The contents of the required files, in the order in which they are read.
pub open spec fn blob(blobs: OuterQemuAcpiFwCfgBlobs, k: int) -> Seq<u8> {
    if k == 0 {
        blobs.spec_tables()
    } else if k == 1 {
        blobs.spec_rsdp()
    } else {
        blobs.spec_table_loader()
    }
}

/// Collects the three ACPI files that a directory lists. The first of them that is missing, or
/// that cannot be read, is the error.
pub fn collect_required_acpi_blobs<F: Fn(&FwCfgFileDirEntry) -> Result<Vec<u8>, VmError>>(
    entries: &[FwCfgFileDirEntry],
    read_entry: F,
) -> (r: Result<OuterQemuAcpiFwCfgBlobs, AcpiBlobError>)
    requires
        forall|i: int|
            0 <= i < entries@.len() ==> call_requires(read_entry, (&#[trigger] entries@[i],)),
    ensures
        match r {
            Ok(blobs) => forall|k: int|
                0 <= k < 3 ==> exists|content: Vec<u8>|
                    content@ == #[trigger] blob(blobs, k) && named_file_outcome(
                        entries@,
                        required_file(k),
                        read_entry,
                        Ok(content),
                    ),
            Err(err) => exists|k: int|
                {
                    &&& 0 <= k < 3
                    &&& named_file_outcome(
                        entries@,
                        #[trigger] required_file(k),
                        read_entry,
                        Err(err),
                    )
                    &&& forall|j: int|
                        0 <= j < k ==> named_file_read(
                            entries@,
                            #[trigger] required_file(j),
                            read_entry,
                        )
                },
        },
{
    let tables = match read_named_fw_cfg_file(entries, ACPI_TABLES_FILE, &read_entry) {
        Ok(content) => content,
        Err(err) => {
            assert(required_file(0) == ACPI_TABLES_FILE@);
            return Err(err);
        },
    };
    let rsdp = match read_named_fw_cfg_file(entries, ACPI_RSDP_FILE, &read_entry) {
        Ok(content) => content,
        Err(err) => {
            assert(required_file(1) == ACPI_RSDP_FILE@);
            return Err(err);
        },
    };
    let table_loader = match read_named_fw_cfg_file(entries, ACPI_TABLE_LOADER_FILE, &read_entry) {
        Ok(content) => content,
        Err(err) => {
            assert(required_file(2) == ACPI_TABLE_LOADER_FILE@);
            return Err(err);
        },
    };
    let blobs = OuterQemuAcpiFwCfgBlobs { tables, rsdp, table_loader };
    proof {
        assert forall|k: int| 0 <= k < 3 implies exists|content: Vec<u8>|
            content@ == #[trigger] blob(blobs, k) && named_file_outcome(
                entries@,
                required_file(k),
                read_entry,
                Ok(content),
            ) by {
            if k == 0 {
                assert(tables@ == blob(blobs, 0));
            } else if k == 1 {
                assert(rsdp@ == blob(blobs, 1));
            } else {
                assert(table_loader@ == blob(blobs, 2));
            }
        }
    }
    Ok(blobs)
}

/// The files that are required are the tables, their root pointer and the loader, in this order,
/// and what is collected of each is what stands under its name.
pub proof fn required_files_are_named(blobs: OuterQemuAcpiFwCfgBlobs)
    ensures
        required_file(0) == "etc/acpi/tables"@ && blob(blobs, 0) == blobs.spec_tables(),
        required_file(1) == "etc/acpi/rsdp"@ && blob(blobs, 1) == blobs.spec_rsdp(),
        required_file(2) == "etc/table-loader"@ && blob(blobs, 2) == blobs.spec_table_loader(),
{
}

/// Reading a named file says that the file is missing, and names it, exactly where no entry of the
/// directory has the name. A content or an error comes from reading an entry with that name.
pub proof fn file_is_read_from_its_entry<F: Fn(&FwCfgFileDirEntry) -> Result<Vec<u8>, VmError>>(
    entries: Seq<FwCfgFileDirEntry>,
    name: Seq<char>,
    read_entry: F,
    outcome: Result<Vec<u8>, AcpiBlobError>,
)
    requires
        named_file_outcome(entries, name, read_entry, outcome),
    ensures
        (forall|j: int| 0 <= j < entries.len() ==> (#[trigger] entries[j]).name@ != name) <==> (
        outcome is Err && outcome->Err_0 is Missing),
        outcome is Err && outcome->Err_0 is Missing ==> outcome->Err_0->Missing_0@ == name,
        outcome is Ok ==> exists|j: int|
            0 <= j < entries.len() && (#[trigger] entries[j]).name@ == name && call_ensures(
                read_entry,
                (&entries[j],),
                Ok::<Vec<u8>, VmError>(outcome.unwrap()),
            ),
        outcome is Err && outcome->Err_0 is Read ==> exists|j: int|
            0 <= j < entries.len() && (#[trigger] entries[j]).name@ == name && call_ensures(
                read_entry,
                (&entries[j],),
                Err::<Vec<u8>, VmError>(outcome->Err_0->Read_0),
            ),
{
    found_entry_has_name(entries, name, 0);
    if find(entries, name, 0) is Some {
        let k = find(entries, name, 0).unwrap();
        assert(entries[k].name@ == name);
    }
}

} // verus!
