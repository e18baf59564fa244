//! The directory of files: how it is laid out, and how it is read back.

use vstd::prelude::*;

use crate::bytes;
use crate::error::VmError;

verus! {

/// The size of the name field of a directory entry, which ends in a null byte.
pub const QEMU_FW_CFG_FNAME_SIZE: usize = 56;

/// The size of a directory entry.
pub const FW_CFG_FILE_DIR_ENTRY_SIZE: usize = 64;

/// A file, as the device holds it.
#[verifier::ext_equal]
pub struct FileView {
    pub selector: u16,
    pub name: Seq<char>,
    pub content: Seq<u8>,
}

/// The name of a file as bytes.
pub open spec fn name_bytes(name: Seq<char>) -> Seq<u8> {
    vstd::utf8::encode_utf8(name)
}

/// `name` filled up with null bytes to the size of the name field.
pub open spec fn padded(name: Seq<u8>) -> Seq<u8> {
    Seq::new(
        56,
        |i: int|
            if i < name.len() {
                name[i]
            } else {
                0
            },
    )
}

/// The part of a number that a 32-bit field holds.
pub open spec fn low_u32(n: nat) -> u32 {
    (n % 0x1_0000_0000) as u32
}

/// The directory entry of a file.
pub open spec fn entry_bytes(file: FileView) -> Seq<u8> {
    bytes::be_bytes_u32(low_u32(file.content.len())) + bytes::be_bytes_u16(file.selector)
        + bytes::be_bytes_u16(0) + padded(name_bytes(file.name))
}

/// The directory entries of the first `n` files.
pub open spec fn entries_bytes(files: Seq<FileView>, n: nat) -> Seq<u8>
    decreases n,
{
    if n == 0 {
        Seq::empty()
    } else {
        entries_bytes(files, (n - 1) as nat) + entry_bytes(files[n - 1])
    }
}

/// The directory: the number of files, and an entry for each of them.
pub open spec fn dir_bytes(files: Seq<FileView>) -> Seq<u8> {
    bytes::be_bytes_u32(low_u32(files.len())) + entries_bytes(files, files.len())
}

/// The name of the memory map fits a directory entry.
pub proof fn e820_name_fits()
    ensures
        name_bytes("etc/e820"@).len() == 8,
{
    reveal_strlit("etc/e820");
    vstd::utf8::is_ascii_chars_encode_utf8("etc/e820"@);
}

/// Appends the directory entry of a file.
pub fn append_entry(dir: &mut Vec<u8>, size: usize, selector: u16, name: &str)
    requires
        name_bytes(name@).len() <= 56,
    ensures
        final(dir)@ == old(dir)@ + (bytes::be_bytes_u32(low_u32(size as nat))
            + bytes::be_bytes_u16(selector) + bytes::be_bytes_u16(0) + padded(name_bytes(name@))),
{
    bytes::append_u32_be(dir, (size as u64 % 0x1_0000_0000) as u32);
    bytes::append_u16_be(dir, selector);
    bytes::append_u16_be(dir, 0);
    let raw: &[u8] = name.as_bytes();
    let ghost before = dir@;
    let mut i: usize = 0;
    while i < QEMU_FW_CFG_FNAME_SIZE
        invariant
            i <= 56,
            raw@ == name_bytes(name@),
            dir@ == before + padded(raw@).take(i as int),
        decreases 56 - i,
    {
        if i < raw.len() {
            dir.push(raw[i]);
        } else {
            dir.push(0);
        }
        i = i + 1;
        assert(padded(raw@).take(i as int) =~= padded(raw@).take(i - 1).push(padded(raw@)[i - 1]));
    }
    assert(padded(raw@).take(56) =~= padded(raw@));
    assert(before =~= old(dir)@ + (bytes::be_bytes_u32(low_u32(size as nat)) + bytes::be_bytes_u16(
        selector,
    ) + bytes::be_bytes_u16(0)));
}

/// An entry of a directory that has been read.
#[derive(Clone, Debug)]
pub struct FwCfgFileDirEntry {
    /// The size of the file in bytes.
    pub size: usize,
    /// The selector of the file.
    pub selector: u16,
    /// The name of the file.
    pub name: String,
}

/// What an entry says.
#[verifier::ext_equal]
pub struct EntryView {
    pub size: nat,
    pub selector: u16,
    pub name: Seq<char>,
}

impl View for FwCfgFileDirEntry {
    type V = EntryView;

    open spec fn view(&self) -> EntryView {
        EntryView { size: self.size as nat, selector: self.selector, name: self.name@ }
    }
}

/// How many bytes come before the first null byte, from index `i` on.
pub open spec fn before_null(field: Seq<u8>, i: nat) -> nat
    decreases field.len() - i,
{
    if i >= field.len() || field[i as int] == 0 {
        0
    } else {
        1 + before_null(field, i + 1)
    }
}

/// The name in a name field, without what comes from the first null byte on.
pub open spec fn name_of(field: Seq<u8>) -> Seq<u8> {
    field.take(before_null(field, 0) as int)
}

/// The entry that 64 bytes of a directory from index `at` on encode, if its name is text.
pub open spec fn entry_at(dir: Seq<u8>, at: int) -> Option<EntryView> {
    let name = name_of(dir.subrange(at + 8, at + 64));
    if vstd::utf8::valid_utf8(name) {
        Some(
            EntryView {
                size: bytes::be_u32_at(dir, at) as nat,
                selector: bytes::be_u16_at(dir, at + 4),
                name: vstd::utf8::decode_utf8(name),
            },
        )
    } else {
        None
    }
}

/// The first `n` entries of a directory, if the names of all of them are text.
pub open spec fn entries_of(dir: Seq<u8>, n: nat) -> Option<Seq<EntryView>>
    decreases n,
{
    if n == 0 {
        Some(Seq::empty())
    } else {
        match entries_of(dir, (n - 1) as nat) {
            None => None,
            Some(first) => match entry_at(dir, 4 + 64 * (n - 1)) {
                None => None,
                Some(last) => Some(first.push(last)),
            },
        }
    }
}

/// What a directory says: nothing where it is cut short, or where a name is not text.
pub open spec fn parsed(dir: Seq<u8>) -> Option<Seq<EntryView>> {
    if dir.len() < 4 || dir.len() < 4 + 64 * bytes::be_u32_at(dir, 0) {
        None
    } else {
        entries_of(dir, bytes::be_u32_at(dir, 0) as nat)
    }
}

/// What the entries say.
pub open spec fn entry_views(entries: Seq<FwCfgFileDirEntry>) -> Seq<EntryView> {
    entries.map_values(|e: FwCfgFileDirEntry| e@)
}

/// `String::from_utf8`: the text that bytes encode, or nothing where they are not UTF-8.
#[verifier::external_body]
fn text_from_utf8(raw: Vec<u8>) -> (text: Option<String>)
    ensures
        text is Some <==> vstd::utf8::valid_utf8(raw@),
        text matches Some(s) ==> vstd::utf8::encode_utf8(s@) == raw@,
{
    String::from_utf8(raw).ok()
}

/// Reads the name in the name field at index `at` of a directory.
fn read_name(dir: &[u8], at: usize) -> (name: Vec<u8>)
    requires
        at + 56 <= dir@.len(),
    ensures
        name@ == name_of(dir@.subrange(at as int, at + 56)),
{
    let ghost field = dir@.subrange(at as int, at + 56);
    let mut name: Vec<u8> = Vec::new();
    let mut i: usize = 0;
    assert(dir@.len() == dir.len());
    while i < 56 && dir[at + i] != 0
        invariant
            i <= 56,
            at + 56 <= dir@.len() <= usize::MAX,
            field == dir@.subrange(at as int, at + 56),
            name@ == field.take(i as int),
            before_null(field, 0) == i + before_null(field, i as nat),
        decreases 56 - i,
    {
        assert(dir@[at + i] == field[i as int]);
        name.push(dir[at + i]);
        i = i + 1;
        assert(field.take(i as int) =~= field.take(i - 1).push(field[i - 1]));
    }
    assert(i < 56 ==> dir@[at + i] == field[i as int]);
    name
}

/// Reads a directory: its entries in order. A directory that is cut short, or that holds a name
/// that is not text, is malformed.
pub fn parse_file_directory(dir: &[u8]) -> (r: Result<Vec<FwCfgFileDirEntry>, VmError>)
    ensures
        match parsed(dir@) {
            Some(entries) => r matches Ok(v) && entry_views(v@) == entries,
            None => r matches Err(err) && err == VmError::InvalidData,
        },
{
    if dir.len() < 4 {
        return Err(VmError::InvalidData);
    }
    let count: u32 = bytes::read_be_u32(dir, 0);
    if ((dir.len() - 4) as u64) < 64 * (count as u64) {
        return Err(VmError::InvalidData);
    }
    let mut entries: Vec<FwCfgFileDirEntry> = Vec::new();
    let mut n: u32 = 0;
    assert(entry_views(entries@) =~= Seq::<EntryView>::empty());
    while n < count
        invariant
            n <= count,
            4 + 64 * count <= dir@.len() <= usize::MAX,
            count == bytes::be_u32_at(dir@, 0),
            entries_of(dir@, n as nat) == Some(entry_views(entries@)),
        decreases count - n,
    {
        let at: usize = 4 + 64 * (n as usize);
        let raw = read_name(dir, at + 8);
        let ghost name = raw@;
        let size: u32 = bytes::read_be_u32(dir, at);
        let selector: u16 = bytes::read_be_u16(dir, at + 4);
        let name = match text_from_utf8(raw) {
            Some(name) => name,
            None => {
                proof {
                    entries_stop_at(dir@, (n + 1) as nat, count as nat);
                }
                return Err(VmError::InvalidData);
            },
        };
        proof {
            vstd::utf8::encode_utf8_decode_utf8(name@);
        }
        let ghost before = entries@;
        let entry = FwCfgFileDirEntry { size: size as usize, selector, name };
        entries.push(entry);
        n = n + 1;
        assert(entry_at(dir@, 4 + 64 * (n - 1)) == Some(entry@));
        assert(entry_views(entries@) =~= entry_views(before).push(entry@));
    }
    Ok(entries)
}

/// Where some entries cannot be read, more entries cannot either.
proof fn entries_stop_at(dir: Seq<u8>, n: nat, more: nat)
    requires
        n <= more,
        entries_of(dir, n) is None,
    ensures
        entries_of(dir, more) is None,
    decreases more,
{
    if n < more {
        entries_stop_at(dir, n, (more - 1) as nat);
    }
}

} // verus!
