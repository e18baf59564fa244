//! The disk behind the block device.

use vstd::prelude::*;

use crate::error::VmError;

verus! {

/// The size of a sector in bytes.
pub const SECTOR_SIZE: usize = 512;

/// A disk whose sectors are held in memory.
#[derive(Debug)]
pub struct MemoryDisk {
    bytes: Vec<u8>,
}

impl View for MemoryDisk {
    type V = Seq<u8>;

    closed spec fn view(&self) -> Seq<u8> {
        self.bytes@
    }
}

/// `bytes` with the part from `offset` on replaced by `src`.
pub open spec fn overwritten(bytes: Seq<u8>, offset: int, src: Seq<u8>) -> Seq<u8> {
    bytes.take(offset) + src + bytes.skip(offset + src.len())
}

impl MemoryDisk {
    /// A disk that holds `bytes`.
    pub fn new(bytes: Vec<u8>) -> (disk: MemoryDisk)
        ensures
            disk@ == bytes@,
    {
        MemoryDisk { bytes }
    }

    /// How many whole sectors the disk has.
    pub fn capacity_sectors(&self) -> (n: u64)
        ensures
            n == self@.len() / 512,
    {
        (self.bytes.len() / SECTOR_SIZE) as u64
    }

    /// Copies the bytes from `offset` on into all of `dst`.
    pub fn read_at(&self, offset: usize, dst: &mut [u8]) -> (r: Result<(), VmError>)
        ensures
            r is Ok <==> offset + old(dst)@.len() <= self@.len(),
            r is Err ==> r->Err_0 == VmError::InvalidInput && final(dst)@ == old(dst)@,
            r is Ok ==> final(dst)@ == self@.subrange(
                offset as int,
                offset + old(dst)@.len(),
            ),
    {
        let len: usize = dst.len();
        let end: usize = match checked_disk_range(offset, len, self.bytes.len()) {
            Ok(end) => end,
            Err(err) => return Err(err),
        };
        let mut i: usize = 0;
        while i < len
            invariant
                i <= len,
                dst@.len() == len,
                offset + len == end,
                end <= self.bytes@.len(),
                dst@.take(i as int) == self.bytes@.subrange(offset as int, offset + i),
            decreases len - i,
        {
            dst[i] = self.bytes[offset + i];
            i = i + 1;
            assert(dst@.take(i as int) =~= self.bytes@.subrange(offset as int, offset + i));
        }
        assert(dst@ =~= dst@.take(len as int));
        Ok(())
    }

    /// Overwrites the bytes from `offset` on with all of `src`.
    pub fn write_at(&mut self, offset: usize, src: &[u8]) -> (r: Result<(), VmError>)
        ensures
            r is Ok <==> offset + src@.len() <= old(self)@.len(),
            r is Err ==> r->Err_0 == VmError::InvalidInput && final(self)@ == old(self)@,
            r is Ok ==> final(self)@ == overwritten(old(self)@, offset as int, src@),
    {
        let len: usize = src.len();
        let end: usize = match checked_disk_range(offset, len, self.bytes.len()) {
            Ok(end) => end,
            Err(err) => return Err(err),
        };
        let mut i: usize = 0;
        while i < len
            invariant
                i <= len,
                len == src@.len(),
                offset + len == end,
                end <= old(self).bytes@.len(),
                self.bytes@.len() == old(self).bytes@.len(),
                forall|k: int|
                    0 <= k < self.bytes@.len() ==> #[trigger] self.bytes@[k] == if offset <= k
                        < offset + i {
                        src@[k - offset]
                    } else {
                        old(self).bytes@[k]
                    },
            decreases len - i,
        {
            self.bytes[offset + i] = src[i];
            i = i + 1;
        }
        assert(self.bytes@ =~= overwritten(old(self).bytes@, offset as int, src@));
        Ok(())
    }

    /// Everything that the disk holds.
    pub fn as_slice(&self) -> (s: &[u8])
        ensures
            s@ == self@,
    {
        self.bytes.as_slice()
    }
}

/// The end of a range of `len` bytes at `offset`, if the range lies within a disk of `disk_len`
/// bytes.
pub fn checked_disk_range(offset: usize, len: usize, disk_len: usize) -> (r: Result<
    usize,
    VmError,
>)
    ensures
        r is Ok <==> offset + len <= disk_len,
        r matches Ok(end) ==> end == offset + len,
        r matches Err(err) ==> err == VmError::InvalidInput,
{
    match offset.checked_add(len) {
        Some(end) => if end <= disk_len {
            Ok(end)
        } else {
            Err(VmError::InvalidInput)
        },
        None => Err(VmError::InvalidInput),
    }
}

/// What was written is what is read back from the same place, and the bytes of the disk outside
/// the written range, and its size, stay the same.
pub proof fn read_back_after_write(disk: Seq<u8>, offset: int, src: Seq<u8>)
    requires
        0 <= offset,
        offset + src.len() <= disk.len(),
    ensures
        overwritten(disk, offset, src).len() == disk.len(),
        overwritten(disk, offset, src).subrange(offset, offset + src.len()) == src,
        forall|k: int|
            0 <= k < disk.len() && !(offset <= k < offset + src.len()) ==> #[trigger] overwritten(
                disk,
                offset,
                src,
            )[k] == disk[k],
{
    assert(overwritten(disk, offset, src).subrange(offset, offset + src.len()) =~= src);
}

} // verus!
