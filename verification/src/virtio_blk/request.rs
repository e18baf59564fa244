//! Requests to the block device, and how they end.

use vstd::prelude::*;

use crate::bytes;
use crate::error::VmError;
use crate::guest_memory::{GuestMemory, RamView};
use crate::virtio_blk::queue::Descriptor;

verus! {

/// Read sectors into guest memory.
pub const VIRTIO_BLK_T_IN: u32 = 0;

/// Write guest memory to sectors.
pub const VIRTIO_BLK_T_OUT: u32 = 1;

/// Write the serial of the device into guest memory.
pub const VIRTIO_BLK_T_GET_ID: u32 = 8;

/// The request was carried out.
pub const VIRTIO_BLK_S_OK: u8 = 0;

/// The request failed.
pub const VIRTIO_BLK_S_IOERR: u8 = 1;

/// The device does not know the kind of the request.
pub const VIRTIO_BLK_S_UNSUPP: u8 = 2;

/// What a request asks for.
#[verifier::ext_equal]
pub struct RequestView {
    pub kind: u32,
    pub sector: u64,
    pub data: Seq<Descriptor>,
    pub status: Descriptor,
}

impl RequestView {
    /// The request that a chain of descriptors makes: a readable header of 16 bytes or more, the
    /// descriptors of the data, and a writable status byte.
    pub open spec fn parsed(descs: Seq<Descriptor>, ram: RamView) -> Option<RequestView> {
        if descs.len() < 2 || descs[0].is_writable() || descs[0].len < 16
            || !descs.last().is_writable() || descs.last().len == 0 {
            None
        } else {
            match ram.load(descs[0].addr as int, 16) {
                None => None,
                Some(raw) => Some(
                    RequestView {
                        kind: bytes::le_u32_at(raw, 0),
                        sector: bytes::le_u64_at(raw, 8),
                        data: descs.subrange(1, descs.len() - 1),
                        status: descs.last(),
                    },
                ),
            }
        }
    }

    /// The device knows the kind of the request.
    pub open spec fn known(self) -> bool {
        self.kind == VIRTIO_BLK_T_IN || self.kind == VIRTIO_BLK_T_OUT || self.kind
            == VIRTIO_BLK_T_GET_ID
    }

    /// The data descriptors fit the kind of the request: there are some, and the device may write
    /// all of them where it answers with data, and none of them where it takes data.
    pub open spec fn data_ok(self) -> bool {
        self.known() ==> {
            &&& self.data.len() > 0
            &&& forall|i: int|
                0 <= i < self.data.len() ==> (#[trigger] self.data[i]).is_writable() == (self.kind
                    != VIRTIO_BLK_T_OUT)
        }
    }
}

/// A request to the block device.
#[derive(Debug)]
pub struct VirtioBlkRequest {
    pub kind: u32,
    pub sector: u64,
    pub data: Vec<Descriptor>,
    pub status: Descriptor,
}

impl View for VirtioBlkRequest {
    type V = RequestView;

    open spec fn view(&self) -> RequestView {
        RequestView {
            kind: self.kind,
            sector: self.sector,
            data: self.data@,
            status: self.status,
        }
    }
}

impl VirtioBlkRequest {
    /// Reads the request that a chain of descriptors makes.
    pub fn from_chain<M: GuestMemory>(descs: &[Descriptor], mem: &M) -> (r: Result<Self, VmError>)
        ensures
            match RequestView::parsed(descs@, mem.ram()) {
                Some(request) => r matches Ok(req) && req@ == request,
                None => r matches Err(err) && err == VmError::InvalidInput,
            },
    {
        if descs.len() < 2 {
            return Err(VmError::InvalidInput);
        }
        let header = descs[0];
        if header.writable() || header.len < 16 {
            return Err(VmError::InvalidInput);
        }
        let status = descs[descs.len() - 1];
        if !status.writable() || status.len == 0 {
            return Err(VmError::InvalidInput);
        }
        let raw = match mem.read_buffer(header.addr, 16) {
            Ok(raw) => raw,
            Err(err) => return Err(err),
        };
        let mut data: Vec<Descriptor> = Vec::new();
        let mut i: usize = 1;
        while i < descs.len() - 1
            invariant
                2 <= descs@.len() <= usize::MAX,
                1 <= i <= descs@.len() - 1,
                data@ == descs@.subrange(1, i as int),
            decreases descs@.len() - i,
        {
            data.push(descs[i]);
            i = i + 1;
        }
        Ok(
            VirtioBlkRequest {
                kind: bytes::read_le_u32(raw.as_slice(), 0),
                sector: bytes::read_le_u64(raw.as_slice(), 8),
                data,
                status,
            },
        )
    }

    /// Checks that the data descriptors fit the kind of the request.
    pub fn validate_data_descriptors(&self) -> (r: Result<(), VmError>)
        ensures
            r == VmError::unless_invalid(self@.data_ok()),
    {
        let device_writes: bool = if self.kind == VIRTIO_BLK_T_IN || self.kind
            == VIRTIO_BLK_T_GET_ID {
            true
        } else if self.kind == VIRTIO_BLK_T_OUT {
            false
        } else {
            return Ok(());
        };
        if self.data.is_empty() {
            return Err(VmError::InvalidInput);
        }
        let mut i: usize = 0;
        while i < self.data.len()
            invariant
                i <= self.data@.len(),
                self@.known(),
                device_writes == (self.kind != VIRTIO_BLK_T_OUT),
                forall|k: int|
                    0 <= k < i ==> (#[trigger] self.data@[k]).is_writable() == device_writes,
            decreases self.data@.len() - i,
        {
            if self.data[i].writable() != device_writes {
                assert(self@.data[i as int].is_writable() != device_writes);
                return Err(VmError::InvalidInput);
            }
            i = i + 1;
        }
        Ok(())
    }
}

/// How a request ended: the status byte, and the length for the used element.
#[derive(Clone, Copy, Debug, PartialEq, Eq, Structural)]
pub struct RequestCompletion {
    pub status: u8,
    pub used_len: u32,
}

impl RequestCompletion {
    /// The request was carried out.
    pub open spec fn success(used_len: int) -> RequestCompletion {
        RequestCompletion { status: VIRTIO_BLK_S_OK, used_len: used_len as u32 }
    }

    /// The request failed; only the status byte was written.
    pub open spec fn failure() -> RequestCompletion {
        RequestCompletion { status: VIRTIO_BLK_S_IOERR, used_len: 1 }
    }

    /// The kind of the request is not known; only the status byte was written.
    pub open spec fn unknown() -> RequestCompletion {
        RequestCompletion { status: VIRTIO_BLK_S_UNSUPP, used_len: 1 }
    }

    /// The request was carried out.
    pub fn ok(used_len: u32) -> (c: RequestCompletion)
        ensures
            c == RequestCompletion::success(used_len as int),
    {
        RequestCompletion { status: VIRTIO_BLK_S_OK, used_len }
    }

    /// The request failed; only the status byte was written.
    pub fn ioerr() -> (c: RequestCompletion)
        ensures
            c == RequestCompletion::failure(),
    {
        RequestCompletion { status: VIRTIO_BLK_S_IOERR, used_len: 1 }
    }

    /// The kind of the request is not known; only the status byte was written.
    pub fn unsupp() -> (c: RequestCompletion)
        ensures
            c == RequestCompletion::unknown(),
    {
        RequestCompletion { status: VIRTIO_BLK_S_UNSUPP, used_len: 1 }
    }
}

} // verus!
