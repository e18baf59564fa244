//! Guest physical memory, as the devices and the machine see it.

use vstd::prelude::*;

use crate::bytes;
use crate::error::VmError;

verus! {

/// What a guest physical address space holds.
///
/// An address is mapped when `bytes` has it. `areas` gives, for a mapped address, the start and
/// the end of the contiguous area around it, and `host` the host physical address behind it.
pub struct RamView {
    pub bytes: Map<int, u8>,
    pub areas: Map<int, (int, int)>,
    pub host: Map<int, int>,
}

impl RamView {
    /// Every one of the `len` addresses from `gpa` on is mapped.
    pub open spec fn mapped(self, gpa: int, len: int) -> bool {
        forall|a: int| gpa <= a < gpa + len ==> #[trigger] self.bytes.contains_key(a)
    }

    /// How many of the `len` addresses from `gpa` on are mapped before the first unmapped one.
    pub open spec fn mapped_prefix(self, gpa: int, len: nat) -> nat
        decreases len,
    {
        if len == 0 || !self.bytes.contains_key(gpa) {
            0
        } else {
            1 + self.mapped_prefix(gpa + 1, (len - 1) as nat)
        }
    }

    /// The `len` bytes from `gpa` on.
    pub open spec fn at(self, gpa: int, len: nat) -> Seq<u8> {
        Seq::new(len, |i: int| self.bytes[gpa + i])
    }

    /// The memory after the mapped ones of the addresses from `gpa` on have taken the bytes of
    /// `data`.
    pub open spec fn with(self, gpa: int, data: Seq<u8>) -> RamView {
        RamView {
            bytes: Map::new(
                |a: int| self.bytes.contains_key(a),
                |a: int|
                    if gpa <= a < gpa + data.len() {
                        data[a - gpa]
                    } else {
                        self.bytes[a]
                    },
            ),
            ..self
        }
    }

    /// Reading a buffer: its bytes, or nothing if some address of it is not mapped.
    pub open spec fn load(self, gpa: int, len: nat) -> Option<Seq<u8>> {
        if self.mapped(gpa, len as int) {
            Some(self.at(gpa, len))
        } else {
            None
        }
    }

    /// Writing a buffer: the memory afterwards, and whether the whole buffer was written. The
    /// bytes before the first unmapped address are written in any case.
    pub open spec fn store(self, gpa: int, data: Seq<u8>) -> (RamView, bool) {
        let n = self.mapped_prefix(gpa, data.len());
        (self.with(gpa, data.take(n as int)), n == data.len())
    }

    /// The `len` addresses from `gpa` on lie in one area.
    pub open spec fn in_one_area(self, gpa: int, len: int) -> bool {
        self.bytes.contains_key(gpa) && gpa + len <= self.areas[gpa].1
    }

    /// Reading an object, which has to lie in one area.
    pub open spec fn load_object(self, gpa: int, len: nat) -> Option<Seq<u8>> {
        if self.in_one_area(gpa, len as int) {
            Some(self.at(gpa, len))
        } else {
            None
        }
    }

    /// Writing an object, which has to lie in one area. Nothing is written otherwise.
    pub open spec fn store_object(self, gpa: int, data: Seq<u8>) -> (RamView, bool) {
        if self.in_one_area(gpa, data.len() as int) {
            (self.with(gpa, data), true)
        } else {
            (self, false)
        }
    }

    /// The `len` addresses from `gpa` on are mapped, start in an area, and are not more than that
    /// area has.
    pub open spec fn spans(self, gpa: int, len: int) -> bool {
        &&& self.bytes.contains_key(gpa)
        &&& len <= self.areas[gpa].1 - self.areas[gpa].0
        &&& self.mapped(gpa, len)
    }

    /// Reading a span of memory.
    pub open spec fn load_span(self, gpa: int, len: nat) -> Option<Seq<u8>> {
        if self.spans(gpa, len as int) {
            Some(self.at(gpa, len))
        } else {
            None
        }
    }

    /// Writing a span of memory. Nothing is written where it is not mapped.
    pub open spec fn store_span(self, gpa: int, data: Seq<u8>) -> (RamView, bool) {
        if self.spans(gpa, data.len() as int) {
            (self.with(gpa, data), true)
        } else {
            (self, false)
        }
    }

    /// The little-endian 16-bit number at `gpa`.
    pub open spec fn load_u16(self, gpa: int) -> Option<u16> {
        match self.load_object(gpa, 2) {
            Some(raw) => Some(bytes::le_u16_at(raw, 0)),
            None => None,
        }
    }

    /// Where `gpa` lies in host memory.
    pub open spec fn translation(self, gpa: int) -> Option<int> {
        if self.bytes.contains_key(gpa) {
            Some(self.host[gpa])
        } else {
            None
        }
    }

    /// Every area is mapped throughout.
    pub open spec fn coherent(self) -> bool {
        forall|a: int, b: int|
            #![trigger self.bytes.contains_key(a), self.bytes.contains_key(b)]
            self.bytes.contains_key(a) && a <= b < self.areas[a].1 ==> self.bytes.contains_key(b)
    }
}

/// The mapped prefix is the whole range exactly when every address of the range is mapped.
pub proof fn prefix_is_whole_iff_mapped(ram: RamView, gpa: int, len: nat)
    ensures
        ram.mapped_prefix(gpa, len) <= len,
        ram.mapped_prefix(gpa, len) == len <==> ram.mapped(gpa, len as int),
    decreases len,
{
    if len > 0 && ram.bytes.contains_key(gpa) {
        prefix_is_whole_iff_mapped(ram, gpa + 1, (len - 1) as nat);
        if ram.mapped_prefix(gpa, len) == len {
            assert forall|a: int| gpa <= a < gpa + len implies #[trigger] ram.bytes.contains_key(
                a,
            ) by {
                if a != gpa {
                    assert(ram.mapped(gpa + 1, len - 1));
                }
            }
        }
    }
}

/// A buffer that was written whole is what a read of the same range gives back, the rest of the
/// memory is what it was, and no address becomes mapped or unmapped.
pub proof fn load_after_store(ram: RamView, gpa: int, data: Seq<u8>)
    ensures
        ram.store(gpa, data).1 <==> ram.load(gpa, data.len()) is Some,
        ram.store(gpa, data).1 ==> ram.store(gpa, data).0.load(gpa, data.len()) == Some(data),
        ram.store(gpa, data).0.bytes.dom() == ram.bytes.dom(),
        forall|a: int|
            ram.bytes.contains_key(a) && !(gpa <= a < gpa + data.len()) ==> #[trigger] ram.store(
                gpa,
                data,
            ).0.bytes[a] == ram.bytes[a],
{
    prefix_is_whole_iff_mapped(ram, gpa, data.len());
    let after = ram.store(gpa, data).0;
    assert(after.bytes.dom() =~= ram.bytes.dom());
    if ram.store(gpa, data).1 {
        assert(data.take(data.len() as int) =~= data);
        assert forall|a: int| gpa <= a < gpa + data.len() implies #[trigger] after.bytes.contains_key(
            a,
        ) by {
            assert(ram.bytes.contains_key(a));
        }
        assert(after.at(gpa, data.len()) =~= data) by {
            assert forall|i: int| 0 <= i < data.len() implies after.bytes[gpa + i] == data[i] by {
                assert(ram.bytes.contains_key(gpa + i));
            }
        }
    }
}

/// An object that was written is what a read of the same place gives back, and bytes outside it
/// are what they were.
pub proof fn load_after_store_object(ram: RamView, gpa: int, data: Seq<u8>)
    requires
        ram.coherent(),
        ram.store_object(gpa, data).1,
    ensures
        ram.store_object(gpa, data).0.coherent(),
        ram.store_object(gpa, data).0.load_object(gpa, data.len()) == Some(data),
        ram.store_object(gpa, data).0.bytes.dom() == ram.bytes.dom(),
        forall|p: int, n: nat|
            #![trigger ram.store_object(gpa, data).0.at(p, n)]
            ram.mapped(p, n as int) && (p + n <= gpa || gpa + data.len() <= p)
                ==> ram.store_object(gpa, data).0.at(p, n) == ram.at(p, n),
{
    let after = ram.store_object(gpa, data).0;
    assert(after.bytes.dom() =~= ram.bytes.dom());
    assert forall|a: int, b: int|
        #![trigger after.bytes.contains_key(a), after.bytes.contains_key(b)]
        after.bytes.contains_key(a) && a <= b < after.areas[a].1 implies after.bytes.contains_key(
        b,
    ) by {
        assert(ram.bytes.contains_key(a) && ram.bytes.contains_key(b));
    }
    assert(after.at(gpa, data.len()) =~= data) by {
        assert forall|i: int| 0 <= i < data.len() implies after.bytes[gpa + i] == data[i] by {
            assert(ram.bytes.contains_key(gpa + i));
        }
    }
    assert forall|p: int, n: nat|
        #![trigger after.at(p, n)]
        ram.mapped(p, n as int) && (p + n <= gpa || gpa + data.len() <= p) implies after.at(p, n)
        == ram.at(p, n) by {
        assert(after.at(p, n) =~= ram.at(p, n)) by {
            assert forall|i: int| 0 <= i < n implies after.at(p, n)[i] == ram.at(p, n)[i] by {
                assert(ram.bytes.contains_key(p + i));
            }
        }
    }
}

/// Something that stands for guest physical memory.
pub trait HoldsRam {
    /// What the memory holds.
    spec fn ram(&self) -> RamView;
}

/// Access to guest physical memory for a device: buffers, which may cross from one area to the
/// next, and objects, which may not.
pub trait GuestMemory: HoldsRam {
    /// Reads `len` bytes from `gpa` on.
    fn read_buffer(&self, gpa: u64, len: usize) -> (r: Result<Vec<u8>, VmError>)
        ensures
            match self.ram().load(gpa as int, len as nat) {
                Some(bytes) => r matches Ok(v) && v@ == bytes,
                None => r == Err::<Vec<u8>, VmError>(VmError::InvalidInput),
            },
    ;

    /// Writes `data` from `gpa` on.
    fn write_buffer(&mut self, gpa: u64, data: &[u8]) -> (r: Result<(), VmError>)
        ensures
            final(self).ram() == old(self).ram().store(gpa as int, data@).0,
            r == VmError::unless_invalid(old(self).ram().store(gpa as int, data@).1),
    ;

    /// Reads an object of `len` bytes at `gpa`.
    fn read_object(&self, gpa: u64, len: usize) -> (r: Result<Vec<u8>, VmError>)
        ensures
            match self.ram().load_object(gpa as int, len as nat) {
                Some(bytes) => r matches Ok(v) && v@ == bytes,
                None => r == Err::<Vec<u8>, VmError>(VmError::InvalidInput),
            },
    ;

    /// Writes the object `data` at `gpa`.
    fn write_object(&mut self, gpa: u64, data: &[u8]) -> (r: Result<(), VmError>)
        ensures
            final(self).ram() == old(self).ram().store_object(gpa as int, data@).0,
            r == VmError::unless_invalid(old(self).ram().store_object(gpa as int, data@).1),
    ;

}

/// Access to guest physical memory for the machine, which owns the address space: spans, and the
/// addresses of the host.
pub trait GuestSpace: HoldsRam {
    /// Reads the span of `len` bytes at `gpa`.
    fn read_span(&self, gpa: u64, len: usize) -> (r: Result<Vec<u8>, VmError>)
        ensures
            match self.ram().load_span(gpa as int, len as nat) {
                Some(bytes) => r matches Ok(v) && v@ == bytes,
                None => r == Err::<Vec<u8>, VmError>(VmError::InvalidInput),
            },
    ;

    /// Writes the span `data` at `gpa`.
    fn write_span(&mut self, gpa: u64, data: &[u8]) -> (r: Result<(), VmError>)
        ensures
            final(self).ram() == old(self).ram().store_span(gpa as int, data@).0,
            r == VmError::unless_invalid(old(self).ram().store_span(gpa as int, data@).1),
    ;

    /// Finds the host physical address behind `gpa`.
    fn translate(&self, gpa: u64) -> (r: Option<u64>)
        ensures
            match self.ram().translation(gpa as int) {
                Some(hpa) => r matches Some(found) && found == hpa,
                None => r is None,
            },
    ;
}

/// Reads the little-endian 16-bit number at `gpa`.
pub fn load_u16<M: GuestMemory>(mem: &M, gpa: u64) -> (r: Result<u16, VmError>)
    ensures
        r == VmError::or_invalid(mem.ram().load_u16(gpa as int)),
{
    match mem.read_object(gpa, 2) {
        Ok(raw) => Ok(bytes::read_le_u16(raw.as_slice(), 0)),
        Err(err) => Err(err),
    }
}

/// Writes a little-endian 16-bit number at `gpa`.
pub fn store_u16<M: GuestMemory>(mem: &mut M, gpa: u64, value: u16) -> (r: Result<(), VmError>)
    ensures
        final(mem).ram() == old(mem).ram().store_object(gpa as int, bytes::le_bytes_u16(value)).0,
        r == VmError::unless_invalid(
            old(mem).ram().store_object(gpa as int, bytes::le_bytes_u16(value)).1,
        ),
{
    let mut raw: Vec<u8> = Vec::new();
    bytes::append_u16_le(&mut raw, value);
    assert(raw@ =~= bytes::le_bytes_u16(value));
    mem.write_object(gpa, raw.as_slice())
}

/// Writes a little-endian 32-bit number at `gpa`.
pub fn store_u32<M: GuestMemory>(mem: &mut M, gpa: u64, value: u32) -> (r: Result<(), VmError>)
    ensures
        final(mem).ram() == old(mem).ram().store_object(gpa as int, bytes::le_bytes_u32(value)).0,
        r == VmError::unless_invalid(
            old(mem).ram().store_object(gpa as int, bytes::le_bytes_u32(value)).1,
        ),
{
    let mut raw: Vec<u8> = Vec::new();
    bytes::append_u32_le(&mut raw, value);
    assert(raw@ =~= bytes::le_bytes_u32(value));
    mem.write_object(gpa, raw.as_slice())
}

/// What a single buffer looks like that starts at `base` in the guest and at `host_base` in the
/// host.
pub open spec fn buffer_view(base: int, host_base: int, bytes: Seq<u8>) -> RamView {
    RamView {
        bytes: Map::new(|a: int| base <= a < base + bytes.len(), |a: int| bytes[a - base]),
        areas: Map::new(
            |a: int| base <= a < base + bytes.len(),
            |a: int| (base, base + bytes.len()),
        ),
        host: Map::new(|a: int| base <= a < base + bytes.len(), |a: int| host_base + (a - base)),
    }
}

/// Guest memory held in one buffer.
pub struct GuestRam {
    base: u64,
    host_base: u64,
    bytes: Vec<u8>,
}

impl GuestRam {
    #[verifier::type_invariant]
    spec fn inv(self) -> bool {
        &&& self.base + self.bytes@.len() <= u64::MAX
        &&& self.host_base + self.bytes@.len() <= u64::MAX
    }

    /// The first guest physical address of the buffer.
    pub closed spec fn guest_base(self) -> u64 {
        self.base
    }

    /// The first host physical address of the buffer.
    pub closed spec fn host_start(self) -> u64 {
        self.host_base
    }

    /// What the buffer holds.
    pub closed spec fn contents(self) -> Seq<u8> {
        self.bytes@
    }

    /// A buffer that starts at `base` in the guest and at `host_base` in the host.
    pub fn new(base: u64, host_base: u64, bytes: Vec<u8>) -> (ram: GuestRam)
        requires
            base + bytes@.len() <= u64::MAX,
            host_base + bytes@.len() <= u64::MAX,
        ensures
            ram.guest_base() == base,
            ram.host_start() == host_base,
            ram.contents() == bytes@,
            ram.ram() == buffer_view(base as int, host_base as int, bytes@),
    {
        GuestRam { base, host_base, bytes }
    }

    /// What the buffer holds.
    pub fn as_slice(&self) -> (s: &[u8])
        ensures
            s@ == self.contents(),
            self.ram() == buffer_view(
                self.guest_base() as int,
                self.host_start() as int,
                self.contents(),
            ),
    {
        self.bytes.as_slice()
    }

    /// How many bytes of the buffer lie at and after `gpa`.
    fn room(&self, gpa: u64) -> (n: usize)
        ensures
            n <= self.bytes@.len() <= usize::MAX,
            n > 0 ==> self.base <= gpa && gpa + n == self.base + self.bytes@.len(),
            n == 0 ==> !(self.base <= gpa < self.base + self.bytes@.len()),
    {
        let len: usize = self.bytes.len();
        if gpa < self.base || gpa - self.base >= len as u64 {
            0
        } else {
            len - (gpa - self.base) as usize
        }
    }

    /// Copies `len` bytes from index `start` of the buffer on.
    fn copy_out(&self, start: usize, len: usize) -> (out: Vec<u8>)
        requires
            start + len <= self.bytes@.len(),
        ensures
            out@ == self.bytes@.subrange(start as int, start + len),
    {
        let mut out: Vec<u8> = Vec::new();
        let mut i: usize = 0;
        assert(self.bytes@.len() == self.bytes.len());
        while i < len
            invariant
                i <= len,
                self.bytes@.len() <= usize::MAX,
                start + len <= self.bytes@.len(),
                out@ == self.bytes@.subrange(start as int, start + i),
            decreases len - i,
        {
            out.push(self.bytes[start + i]);
            i = i + 1;
        }
        out
    }

    /// Overwrites the buffer from index `start` on with the first `len` bytes of `data`.
    fn copy_in(&mut self, start: usize, data: &[u8], len: usize)
        requires
            len <= data@.len(),
            start + len <= old(self).bytes@.len(),
        ensures
            final(self).base == old(self).base,
            final(self).host_base == old(self).host_base,
            final(self).bytes@.len() == old(self).bytes@.len(),
            forall|k: int|
                0 <= k < old(self).bytes@.len() ==> #[trigger] final(self).bytes@[k] == if start
                    <= k < start + len {
                    data@[k - start]
                } else {
                    old(self).bytes@[k]
                },
    {
        proof {
            use_type_invariant(&*self);
        }
        let mut bytes: Vec<u8> = Vec::new();
        core::mem::swap(&mut bytes, &mut self.bytes);
        let mut i: usize = 0;
        assert(bytes@.len() == bytes.len());
        while i < len
            invariant
                i <= len,
                bytes@.len() <= usize::MAX,
                len <= data@.len(),
                start + len <= old(self).bytes@.len(),
                bytes@.len() == old(self).bytes@.len(),
                forall|k: int|
                    0 <= k < old(self).bytes@.len() ==> #[trigger] bytes@[k] == if start <= k
                        < start + i {
                        data@[k - start]
                    } else {
                        old(self).bytes@[k]
                    },
            decreases len - i,
        {
            bytes[start + i] = data[i];
            i = i + 1;
        }
        self.bytes = bytes;
    }
}

/// A single buffer is mapped throughout.
pub proof fn buffer_is_coherent(base: int, host_base: int, bytes: Seq<u8>)
    ensures
        buffer_view(base, host_base, bytes).coherent(),
{
}

/// The mapped prefix of a range in a buffer is what of the buffer lies after the start of the
/// range, cut to the length of the range.
proof fn buffer_prefix(base: int, host_base: int, bytes: Seq<u8>, gpa: int, len: nat)
    ensures
        buffer_view(base, host_base, bytes).mapped_prefix(gpa, len) == if base <= gpa < base
            + bytes.len() {
            if gpa + len <= base + bytes.len() {
                len as int
            } else {
                base + bytes.len() - gpa
            }
        } else {
            0
        },
    decreases len,
{
    if len > 0 && base <= gpa < base + bytes.len() {
        buffer_prefix(base, host_base, bytes, gpa + 1, (len - 1) as nat);
    }
}

impl HoldsRam for GuestRam {
    closed spec fn ram(&self) -> RamView {
        buffer_view(self.base as int, self.host_base as int, self.bytes@)
    }
}

impl GuestMemory for GuestRam {
    fn read_buffer(&self, gpa: u64, len: usize) -> (r: Result<Vec<u8>, VmError>) {
        if len == 0 {
            assert(self.ram().at(gpa as int, 0) =~= Seq::<u8>::empty());
            return Ok(Vec::new());
        }
        let room: usize = self.room(gpa);
        if room < len {
            proof {
                assert(!self.ram().bytes.contains_key(gpa + room));
            }
            return Err(VmError::InvalidInput);
        }
        let start: usize = (gpa - self.base) as usize;
        let out = self.copy_out(start, len);
        assert(out@ =~= self.ram().at(gpa as int, len as nat));
        Ok(out)
    }

    fn write_buffer(&mut self, gpa: u64, data: &[u8]) -> (r: Result<(), VmError>) {
        let ghost before = self.ram();
        proof {
            buffer_prefix(
                self.base as int,
                self.host_base as int,
                self.bytes@,
                gpa as int,
                data@.len(),
            );
        }
        let room: usize = self.room(gpa);
        let len: usize = if data.len() <= room {
            data.len()
        } else {
            room
        };
        if len > 0 {
            let start: usize = (gpa - self.base) as usize;
            self.copy_in(start, data, len);
        }
        assert(self.ram().bytes =~= before.with(gpa as int, data@.take(len as int)).bytes);
        if len == data.len() {
            Ok(())
        } else {
            Err(VmError::InvalidInput)
        }
    }

    fn read_object(&self, gpa: u64, len: usize) -> (r: Result<Vec<u8>, VmError>) {
        let room: usize = self.room(gpa);
        if room == 0 || room < len {
            return Err(VmError::InvalidInput);
        }
        let start: usize = (gpa - self.base) as usize;
        let out = self.copy_out(start, len);
        assert(out@ =~= self.ram().at(gpa as int, len as nat));
        Ok(out)
    }

    fn write_object(&mut self, gpa: u64, data: &[u8]) -> (r: Result<(), VmError>) {
        let ghost before = self.ram();
        let room: usize = self.room(gpa);
        if room == 0 || room < data.len() {
            return Err(VmError::InvalidInput);
        }
        let start: usize = (gpa - self.base) as usize;
        self.copy_in(start, data, data.len());
        assert(self.ram().bytes =~= before.with(gpa as int, data@).bytes);
        Ok(())
    }
}

impl GuestSpace for GuestRam {
    fn read_span(&self, gpa: u64, len: usize) -> (r: Result<Vec<u8>, VmError>) {
        let room: usize = self.room(gpa);
        if room == 0 || room < len {
            proof {
                if room > 0 {
                    assert(!self.ram().bytes.contains_key(gpa + room));
                }
            }
            return Err(VmError::InvalidInput);
        }
        let start: usize = (gpa - self.base) as usize;
        let out = self.copy_out(start, len);
        assert(out@ =~= self.ram().at(gpa as int, len as nat));
        Ok(out)
    }

    fn write_span(&mut self, gpa: u64, data: &[u8]) -> (r: Result<(), VmError>) {
        let ghost before = self.ram();
        let room: usize = self.room(gpa);
        if room == 0 || room < data.len() {
            proof {
                if room > 0 {
                    assert(!self.ram().bytes.contains_key(gpa + room));
                }
            }
            return Err(VmError::InvalidInput);
        }
        let start: usize = (gpa - self.base) as usize;
        self.copy_in(start, data, data.len());
        assert(self.ram().bytes =~= before.with(gpa as int, data@).bytes);
        Ok(())
    }

    fn translate(&self, gpa: u64) -> (r: Option<u64>) {
        proof {
            use_type_invariant(self);
        }
        let room: usize = self.room(gpa);
        if room == 0 {
            None
        } else {
            Some(self.host_base + (gpa - self.base))
        }
    }
}

/// Reading a buffer works exactly where every byte of it is mapped, and gives these bytes. Writing
/// one writes the bytes before the first one that is not mapped, and no others; it works exactly
/// where all of them are mapped.
pub proof fn buffers_are_moved_up_to_a_gap(ram: RamView, gpa: int, data: Seq<u8>, a: int)
    ensures
        ({
            let (after, ok) = ram.store(gpa, data);
            let whole = forall|b: int|
                gpa <= b < gpa + data.len() ==> #[trigger] ram.bytes.contains_key(b);
            let before_gap = forall|b: int|
                gpa <= b <= a ==> #[trigger] ram.bytes.contains_key(b);
            &&& ok <==> whole
            &&& ram.load(gpa, data.len()) is Some <==> whole
            &&& whole && gpa <= a < gpa + data.len() ==> ram.load(gpa, data.len()).unwrap()[a - gpa]
                == ram.bytes[a]
            &&& gpa <= a < gpa + data.len() && before_gap ==> after.bytes[a] == data[a - gpa]
            &&& ram.bytes.contains_key(a) && !(gpa <= a < gpa + data.len() && before_gap)
                ==> after.bytes[a] == ram.bytes[a]
            &&& after.bytes.contains_key(a) == ram.bytes.contains_key(a)
            &&& after.areas == ram.areas && after.host == ram.host
        }),
{
    prefix_is_whole_iff_mapped(ram, gpa, data.len());
    prefix_ends_at_gap(ram, gpa, data.len(), a);
    assert(ram.mapped(gpa, data.len() as int) <==> forall|b: int|
        gpa <= b < gpa + data.len() ==> #[trigger] ram.bytes.contains_key(b));
    if gpa <= a < gpa + data.len() && (forall|b: int|
        gpa <= b <= a ==> #[trigger] ram.bytes.contains_key(b)) {
        assert(ram.bytes.contains_key(a));
    }
}

/// An address lies before the first unmapped one exactly where all addresses up to it are mapped.
proof fn prefix_ends_at_gap(ram: RamView, gpa: int, len: nat, a: int)
    requires
        ram.mapped_prefix(gpa, len) <= len,
    ensures
        gpa <= a < gpa + len ==> (a < gpa + ram.mapped_prefix(gpa, len) <==> forall|b: int|
            gpa <= b <= a ==> #[trigger] ram.bytes.contains_key(b)),
    decreases len,
{
    if len > 0 && ram.bytes.contains_key(gpa) {
        prefix_is_whole_iff_mapped(ram, gpa + 1, (len - 1) as nat);
        prefix_ends_at_gap(ram, gpa + 1, (len - 1) as nat, a);
        if gpa < a < gpa + len {
            if forall|b: int| gpa + 1 <= b <= a ==> #[trigger] ram.bytes.contains_key(b) {
                assert forall|b: int| gpa <= b <= a implies #[trigger] ram.bytes.contains_key(b) by {
                    if b > gpa {
                        assert(gpa + 1 <= b <= a);
                    }
                }
            }
        }
    } else if len > 0 && gpa <= a {
        assert(!ram.bytes.contains_key(gpa));
    }
}

/// An object can be read and written exactly where it starts in mapped memory and ends within the
/// area that it starts in, and a span exactly where every byte of it is mapped and it is no longer
/// than that area. Then all of it is written, and nothing else changes; otherwise nothing changes.
/// What lies behind an address in the host is known exactly where the address is mapped.
pub proof fn objects_and_spans_are_moved_whole(ram: RamView, gpa: int, data: Seq<u8>, a: int)
    ensures
        ({
            let len = data.len() as int;
            let (after, ok) = ram.store_object(gpa, data);
            let fits = ram.bytes.contains_key(gpa) && gpa + len <= ram.areas[gpa].1;
            &&& ok == fits
            &&& ram.load_object(gpa, data.len()) is Some <==> fits
            &&& fits && gpa <= a < gpa + len ==> ram.load_object(gpa, data.len()).unwrap()[a - gpa]
                == ram.bytes[a]
            &&& fits && gpa <= a < gpa + len && ram.bytes.contains_key(a) ==> after.bytes[a]
                == data[a - gpa]
            &&& ram.bytes.contains_key(a) && !(fits && gpa <= a < gpa + len) ==> after.bytes[a]
                == ram.bytes[a]
            &&& after.bytes.contains_key(a) == ram.bytes.contains_key(a)
        }),
        ({
            let len = data.len() as int;
            let (after, ok) = ram.store_span(gpa, data);
            let fits = ram.bytes.contains_key(gpa) && len <= ram.areas[gpa].1 - ram.areas[gpa].0
                && forall|b: int| gpa <= b < gpa + len ==> #[trigger] ram.bytes.contains_key(b);
            &&& ok == fits
            &&& ram.load_span(gpa, data.len()) is Some <==> fits
            &&& fits && gpa <= a < gpa + len ==> ram.load_span(gpa, data.len()).unwrap()[a - gpa]
                == ram.bytes[a]
            &&& fits && gpa <= a < gpa + len ==> after.bytes[a] == data[a - gpa]
            &&& ram.bytes.contains_key(a) && !(fits && gpa <= a < gpa + len) ==> after.bytes[a]
                == ram.bytes[a]
            &&& after.bytes.contains_key(a) == ram.bytes.contains_key(a)
        }),
        ram.translation(a) == if ram.bytes.contains_key(a) {
            Some(ram.host[a])
        } else {
            None
        },
{
    let len = data.len() as int;
    assert(ram.mapped(gpa, len) <==> forall|b: int|
        gpa <= b < gpa + len ==> #[trigger] ram.bytes.contains_key(b));
}

/// Memory that is one buffer is mapped from the buffer's start up to its end, as one area, and
/// holds the bytes of the buffer; the addresses of the host run along with those of the guest.
pub proof fn one_buffer_is_one_area(base: int, host_base: int, bytes: Seq<u8>, a: int)
    ensures
        ({
            let ram = buffer_view(base, host_base, bytes);
            &&& ram.bytes.contains_key(a) <==> base <= a < base + bytes.len()
            &&& base <= a < base + bytes.len() ==> ram.bytes[a] == bytes[a - base] && ram.areas[a]
                == (base, (base + bytes.len()) as int) && ram.host[a] == host_base + (a - base)
        }),
{
}

} // verus!
