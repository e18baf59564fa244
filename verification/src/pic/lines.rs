//! Registers of eight interrupt lines, as bytes and as sets of line numbers.

use vstd::prelude::*;

verus! {

/// Bit `i` of `reg` is set.
pub open spec fn bit(reg: u8, i: int) -> bool {
    reg & (1u8 << (i as u8)) != 0
}

/// The lines whose bits are set in `reg`.
pub open spec fn lines(reg: u8) -> Set<int> {
    Set::new(|i: int| 0 <= i < 8 && bit(reg, i))
}

/// What a line adds to the byte of a register.
pub open spec fn weight(s: Set<int>, i: int, w: int) -> int {
    if s.contains(i) {
        w
    } else {
        0
    }
}

/// The byte whose set bits are the lines in `s`.
pub open spec fn byte_of(s: Set<int>) -> u8 {
    (weight(s, 0, 1) + weight(s, 1, 2) + weight(s, 2, 4) + weight(s, 3, 8) + weight(s, 4, 16)
        + weight(s, 5, 32) + weight(s, 6, 64) + weight(s, 7, 128)) as u8
}

/// A register is the byte of its lines.
pub proof fn byte_of_lines(reg: u8)
    ensures
        byte_of(lines(reg)) == reg,
{
    let s = lines(reg);
    assert(1u8 << 0u8 == 1 && 1u8 << 1u8 == 2 && 1u8 << 2u8 == 4 && 1u8 << 3u8 == 8 && 1u8 << 4u8
        == 16 && 1u8 << 5u8 == 32 && 1u8 << 6u8 == 64 && 1u8 << 7u8 == 128) by (bit_vector);
    assert(reg == (reg & 1) + (reg & 2) + (reg & 4) + (reg & 8) + (reg & 16) + (reg & 32) + (reg
        & 64) + (reg & 128)) by (bit_vector);
    assert((reg & 1 == 0 || reg & 1 == 1) && (reg & 2 == 0 || reg & 2 == 2) && (reg & 4 == 0 || reg
        & 4 == 4) && (reg & 8 == 0 || reg & 8 == 8) && (reg & 16 == 0 || reg & 16 == 16) && (reg
        & 32 == 0 || reg & 32 == 32) && (reg & 64 == 0 || reg & 64 == 64) && (reg & 128 == 0 || reg
        & 128 == 128)) by (bit_vector);
}

/// Two registers with the same lines are equal.
pub proof fn lines_determine_register(a: u8, b: u8)
    requires
        lines(a) == lines(b),
    ensures
        a == b,
{
    byte_of_lines(a);
    byte_of_lines(b);
}

/// Whether a line is set.
pub fn has_line(reg: u8, i: u8) -> (b: bool)
    requires
        i < 8,
    ensures
        b == lines(reg).contains(i as int),
{
    reg & (1u8 << i) != 0
}

/// The register with one more line set.
pub fn with_line(reg: u8, i: u8) -> (r: u8)
    requires
        i < 8,
    ensures
        lines(r) == lines(reg).insert(i as int),
{
    let r: u8 = reg | (1u8 << i);
    proof {
        assert(forall|j: u8|
            j < 8 ==> (#[trigger] ((reg | (1u8 << i)) & (1u8 << j)) != 0) == (reg & (1u8 << j) != 0
                || i == j)) by (bit_vector)
            requires
                i < 8,
        ;
        assert forall|k: int| lines(r).contains(k) == lines(reg).insert(i as int).contains(k) by {
            if 0 <= k < 8 {
                let j = k as u8;
                assert(((reg | (1u8 << i)) & (1u8 << j) != 0) == (reg & (1u8 << j) != 0 || i == j));
            }
        }
        assert(lines(r) =~= lines(reg).insert(i as int));
    }
    r
}

/// The register without one of its lines.
pub fn without_line(reg: u8, i: u8) -> (r: u8)
    requires
        i < 8,
    ensures
        lines(r) == lines(reg).remove(i as int),
{
    let r: u8 = reg & !(1u8 << i);
    proof {
        assert(forall|j: u8|
            j < 8 ==> (#[trigger] ((reg & !(1u8 << i)) & (1u8 << j)) != 0) == (reg & (1u8 << j) != 0
                && i != j)) by (bit_vector)
            requires
                i < 8,
        ;
        assert forall|k: int| lines(r).contains(k) == lines(reg).remove(i as int).contains(k) by {
            if 0 <= k < 8 {
                let j = k as u8;
                assert(((reg & !(1u8 << i)) & (1u8 << j) != 0) == (reg & (1u8 << j) != 0 && i
                    != j));
            }
        }
        assert(lines(r) =~= lines(reg).remove(i as int));
    }
    r
}

/// The lines that are set in both registers.
pub fn common_lines(a: u8, b: u8) -> (r: u8)
    ensures
        lines(r) == lines(a).intersect(lines(b)),
{
    let r: u8 = a & b;
    proof {
        assert(forall|j: u8|
            j < 8 ==> (#[trigger] ((a & b) & (1u8 << j)) != 0) == (a & (1u8 << j) != 0 && b & (1u8
                << j) != 0)) by (bit_vector);
        assert forall|k: int| lines(r).contains(k) == lines(a).intersect(lines(b)).contains(k) by {
            if 0 <= k < 8 {
                let j = k as u8;
                assert(((a & b) & (1u8 << j) != 0) == (a & (1u8 << j) != 0 && b & (1u8 << j)
                    != 0));
            }
        }
        assert(lines(r) =~= lines(a).intersect(lines(b)));
    }
    r
}

/// The lines that are set in `a` but not in `b`.
pub fn lines_minus(a: u8, b: u8) -> (r: u8)
    ensures
        lines(r) == lines(a).difference(lines(b)),
{
    let r: u8 = a & !b;
    proof {
        assert(forall|j: u8|
            j < 8 ==> (#[trigger] ((a & !b) & (1u8 << j)) != 0) == (a & (1u8 << j) != 0 && !(b & (
            1u8 << j) != 0))) by (bit_vector);
        assert forall|k: int| lines(r).contains(k) == lines(a).difference(lines(b)).contains(k) by {
            if 0 <= k < 8 {
                let j = k as u8;
                assert(((a & !b) & (1u8 << j) != 0) == (a & (1u8 << j) != 0 && !(b & (1u8 << j)
                    != 0)));
            }
        }
        assert(lines(r) =~= lines(a).difference(lines(b)));
    }
    r
}

/// A register without lines is zero.
pub proof fn no_lines(reg: u8)
    ensures
        reg == 0 <==> lines(reg) == Set::<int>::empty(),
{
    let zero = 0u8;
    assert(forall|j: u8| j < 8 ==> #[trigger] (zero & (1u8 << j)) == 0) by (bit_vector)
        requires
            zero == 0,
    ;
    assert forall|k: int| !lines(0).contains(k) by {
        if 0 <= k < 8 {
            let j = k as u8;
            assert(zero & (1u8 << j) == 0);
        }
    }
    assert(lines(0) =~= Set::<int>::empty());
    if lines(reg) == Set::<int>::empty() {
        lines_determine_register(reg, 0);
    }
}

} // verus!
