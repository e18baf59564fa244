//! Values that come from device registers into registers of a processor.

use vstd::prelude::*;

use crate::bus::AccessWidth;

verus! {

/// One more than the greatest value of the width.
pub open spec fn modulus(width: AccessWidth) -> int {
    match width {
        AccessWidth::Byte => 0x100,
        AccessWidth::Word => 0x1_0000,
        AccessWidth::Dword => 0x1_0000_0000,
        AccessWidth::Qword => 0x1_0000_0000_0000_0000,
    }
}

/// The low part of a value that the width holds.
pub open spec fn low_part(value: int, width: AccessWidth) -> int {
    value % modulus(width)
}

/// The value of the low part, taken as a signed number of the width, in 64 bits.
pub open spec fn sign_extended(value: int, width: AccessWidth) -> int {
    let low = low_part(value, width);
    if 2 * low < modulus(width) {
        low
    } else {
        low - modulus(width) + 0x1_0000_0000_0000_0000
    }
}

/// What a register of the width `reg_width` takes from a read of the width `width` that came back
/// with `raw`.
pub open spec fn read_value(
    raw: int,
    width: AccessWidth,
    reg_width: AccessWidth,
    signed_ext: bool,
) -> int {
    if signed_ext {
        sign_extended(low_part(raw, width), width)
    } else {
        low_part(low_part(raw, width), reg_width)
    }
}

/// The mask of the bits that the width holds.
pub fn width_mask(width: AccessWidth) -> (mask: u64)
    ensures
        mask == modulus(width) - 1,
        forall|v: u64| #[trigger] (v & mask) == low_part(v as int, width),
{
    proof {
        assert forall|v: u64| #[trigger] (v & 0xff) == low_part(v as int, AccessWidth::Byte) by {
            assert(v & 0xff == v % 0x100) by (bit_vector);
        }
        assert forall|v: u64| #[trigger] (v & 0xffff) == low_part(v as int, AccessWidth::Word) by {
            assert(v & 0xffff == v % 0x1_0000) by (bit_vector);
        }
        assert forall|v: u64| #[trigger] (v & 0xffff_ffff) == low_part(
            v as int,
            AccessWidth::Dword,
        ) by {
            assert(v & 0xffff_ffff == v % 0x1_0000_0000) by (bit_vector);
        }
        assert forall|v: u64| #[trigger] (v & 0xffff_ffff_ffff_ffff) == low_part(
            v as int,
            AccessWidth::Qword,
        ) by {
            assert(v & 0xffff_ffff_ffff_ffff == v) by (bit_vector);
        }
    }
    match width {
        AccessWidth::Byte => 0xff,
        AccessWidth::Word => 0xffff,
        AccessWidth::Dword => 0xffff_ffff,
        AccessWidth::Qword => 0xffff_ffff_ffff_ffff,
    }
}

/// The low part of a value, taken as a signed number of the width.
pub fn sign_extend_value(value: u64, width: AccessWidth) -> (r: u64)
    ensures
        r == sign_extended(value as int, width),
{
    match width {
        AccessWidth::Byte => {
            let low: u64 = value % 0x100;
            if low < 0x80 {
                low
            } else {
                low + 0xffff_ffff_ffff_ff00
            }
        },
        AccessWidth::Word => {
            let low: u64 = value % 0x1_0000;
            if low < 0x8000 {
                low
            } else {
                low + 0xffff_ffff_ffff_0000
            }
        },
        AccessWidth::Dword => {
            let low: u64 = value % 0x1_0000_0000;
            if low < 0x8000_0000 {
                low
            } else {
                low + 0xffff_ffff_0000_0000
            }
        },
        AccessWidth::Qword => value,
    }
}

/// What a register takes from a read of a device.
pub fn mmio_read_value(
    raw: u64,
    width: AccessWidth,
    reg_width: AccessWidth,
    signed_ext: bool,
) -> (value: u64)
    ensures
        value == read_value(raw as int, width, reg_width, signed_ext),
{
    let masked: u64 = raw & width_mask(width);
    if signed_ext {
        sign_extend_value(masked, width)
    } else {
        masked & width_mask(reg_width)
    }
}

/// Sign extension keeps the low part of a value, and gives the two's complement of a negative
/// number of the width.
pub proof fn sign_extension_keeps_low_part(value: int, width: AccessWidth)
    requires
        0 <= value,
    ensures
        low_part(sign_extended(value, width), width) == low_part(value, width),
        0 <= sign_extended(value, width) < 0x1_0000_0000_0000_0000,
        sign_extended(value, width) >= 0x8000_0000_0000_0000 <==> 2 * low_part(value, width)
            >= modulus(width),
{
}

/// Sign extension of a byte, a word and a double word is that of the casts between signed
/// integers.
pub proof fn sign_extension_is_cast(value: u64)
    ensures
        sign_extended(value as int, AccessWidth::Byte) == ((value as i8) as i64) as u64,
        sign_extended(value as int, AccessWidth::Word) == ((value as i16) as i64) as u64,
        sign_extended(value as int, AccessWidth::Dword) == ((value as i32) as i64) as u64,
{
    assert(((value as i8) as i64) as u64 == if value % 0x100 < 0x80 {
        value % 0x100
    } else {
        (value % 0x100 + 0xffff_ffff_ffff_ff00) as u64
    }) by (bit_vector);
    assert(((value as i16) as i64) as u64 == if value % 0x1_0000 < 0x8000 {
        value % 0x1_0000
    } else {
        (value % 0x1_0000 + 0xffff_ffff_ffff_0000) as u64
    }) by (bit_vector);
    assert(((value as i32) as i64) as u64 == if value % 0x1_0000_0000 < 0x8000_0000 {
        value % 0x1_0000_0000
    } else {
        (value % 0x1_0000_0000 + 0xffff_ffff_0000_0000) as u64
    }) by (bit_vector);
}

} // verus!
