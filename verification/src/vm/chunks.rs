//! Guest memory that lies in several pieces of host memory.

use vstd::prelude::*;

verus! {

/// The first `n` pieces, one after the other.
pub open spec fn joined(chunks: Seq<&[u8]>, n: nat) -> Seq<u8>
    decreases n,
{
    if n == 0 {
        Seq::empty()
    } else {
        joined(chunks, (n - 1) as nat) + chunks[n - 1]@
    }
}

/// The first `len` bytes of `s`, or all of them where there are fewer.
pub open spec fn at_most(s: Seq<u8>, len: nat) -> Seq<u8> {
    if s.len() <= len {
        s
    } else {
        s.take(len as int)
    }
}

/// More pieces begin with what fewer pieces are.
proof fn joined_grows(chunks: Seq<&[u8]>, n: nat, more: nat)
    requires
        n <= more,
    ensures
        joined(chunks, n).len() <= joined(chunks, more).len(),
        joined(chunks, more).take(joined(chunks, n).len() as int) == joined(chunks, n),
    decreases more,
{
    if n == more {
        assert(joined(chunks, n).take(joined(chunks, n).len() as int) =~= joined(chunks, n));
    } else {
        joined_grows(chunks, n, (more - 1) as nat);
        assert(joined(chunks, more).take(joined(chunks, n).len() as int) =~= joined(
            chunks,
            (more - 1) as nat,
        ).take(joined(chunks, n).len() as int));
    }
}

/// Collects the first `len` bytes of the pieces, or all of them where there are fewer.
pub fn gather_chunks(chunks: &[&[u8]], len: usize) -> (out: Vec<u8>)
    ensures
        out@ == at_most(joined(chunks@, chunks@.len()), len as nat),
{
    let mut out: Vec<u8> = Vec::with_capacity(len);
    let mut n: usize = 0;
    while n < chunks.len() && out.len() < len
        invariant
            n <= chunks@.len(),
            out@ == at_most(joined(chunks@, n as nat), len as nat),
        decreases chunks@.len() - n,
    {
        let chunk: &[u8] = chunks[n];
        let remaining: usize = len - out.len();
        let take: usize = if remaining <= chunk.len() {
            remaining
        } else {
            chunk.len()
        };
        let ghost before = out@;
        let mut i: usize = 0;
        while i < take
            invariant
                i <= take,
                take <= chunk@.len(),
                out@ == before + chunk@.take(i as int),
            decreases take - i,
        {
            out.push(chunk[i]);
            i = i + 1;
            assert(out@ =~= before + chunk@.take(i as int));
        }
        proof {
            assert(before =~= joined(chunks@, n as nat));
            let next = joined(chunks@, (n + 1) as nat);
            assert(next == before + chunk@);
            assert(out@ =~= at_most(next, len as nat));
        }
        n = n + 1;
    }
    proof {
        joined_grows(chunks@, n as nat, chunks@.len());
        let all = joined(chunks@, chunks@.len());
        let part = joined(chunks@, n as nat);
        if n < chunks@.len() {
            assert(at_most(all, len as nat) =~= at_most(part, len as nat)) by {
                assert(all.take(part.len() as int) == part);
                assert(forall|k: int|
                    0 <= k < part.len() ==> all[k] == all.take(part.len() as int)[k]);
            }
        }
    }
    out
}

/// How many bytes the first `n` pieces have.
pub open spec fn sum(lens: Seq<usize>, n: nat) -> nat
    decreases n,
{
    if n == 0 {
        0
    } else {
        sum(lens, (n - 1) as nat) + lens[n - 1] as nat
    }
}

/// Where the piece at index `n` starts in data of `total` bytes that is spread over the pieces.
pub open spec fn start_of(lens: Seq<usize>, n: nat, total: nat) -> nat {
    if sum(lens, n) <= total {
        sum(lens, n)
    } else {
        total
    }
}

/// How data of `total` bytes is spread over pieces of the given lengths: for each piece, which
/// part of the data goes to its beginning.
pub fn scatter_ranges(lens: &[usize], total: usize) -> (ranges: Vec<(usize, usize)>)
    ensures
        ranges@.len() == lens@.len(),
        forall|k: int|
            #![trigger ranges@[k]]
            0 <= k < lens@.len() ==> ranges@[k].0 == start_of(lens@, k as nat, total as nat)
                && ranges@[k].1 == start_of(lens@, (k + 1) as nat, total as nat),
{
    let mut ranges: Vec<(usize, usize)> = Vec::new();
    let mut offset: usize = 0;
    let mut n: usize = 0;
    while n < lens.len()
        invariant
            n <= lens@.len(),
            offset <= total,
            offset == start_of(lens@, n as nat, total as nat),
            ranges@.len() == n,
            forall|k: int|
                #![trigger ranges@[k]]
                0 <= k < n ==> ranges@[k].0 == start_of(lens@, k as nat, total as nat)
                    && ranges@[k].1 == start_of(lens@, (k + 1) as nat, total as nat),
        decreases lens@.len() - n,
    {
        let end: usize = if lens[n] <= total - offset {
            offset + lens[n]
        } else {
            total
        };
        ranges.push((offset, end));
        offset = end;
        n = n + 1;
    }
    ranges
}

/// The parts follow one another without a gap, no part is longer than its piece, and together
/// they are the data, where the pieces have room for it.
pub proof fn scattered_parts_join(lens: Seq<usize>, k: nat, total: nat)
    ensures
        start_of(lens, 0, total) == 0,
        start_of(lens, k, total) <= start_of(lens, k + 1, total) <= start_of(lens, k, total)
            + lens[k as int],
        total <= sum(lens, lens.len()) ==> start_of(lens, lens.len(), total) == total,
{
}

/// How many bytes the first `n` pieces have.
pub open spec fn bytes_of(chunks: Seq<&[u8]>, n: nat) -> nat
    decreases n,
{
    if n == 0 {
        0
    } else {
        bytes_of(chunks, (n - 1) as nat) + chunks[n - 1]@.len()
    }
}

/// What is collected is as long as was asked for, or as long as all pieces are where that is less,
/// and byte `k` of the piece at index `j` stands in it behind all bytes of the pieces before it.
pub proof fn collected_bytes_stand_in_order(chunks: Seq<&[u8]>, len: nat, n: nat, j: int, k: int)
    requires
        n <= chunks.len(),
    ensures
        ({
            let out = at_most(joined(chunks, n), len);
            &&& bytes_of(chunks, n) <= len ==> out.len() == bytes_of(chunks, n)
            &&& bytes_of(chunks, n) > len ==> out.len() == len
            &&& joined(chunks, n).len() == bytes_of(chunks, n)
            &&& 0 <= j < n && 0 <= k < chunks[j]@.len() ==> bytes_of(chunks, j as nat) + k
                < bytes_of(chunks, n)
            &&& 0 <= j < n && 0 <= k < chunks[j]@.len() ==> joined(chunks, n)[bytes_of(
                chunks,
                j as nat,
            ) + k] == chunks[j]@[k]
            &&& 0 <= j < n && 0 <= k < chunks[j]@.len() && bytes_of(chunks, j as nat) + k < len
                ==> out[bytes_of(chunks, j as nat) + k] == chunks[j]@[k]
        }),
    decreases n,
{
    if n > 0 {
        collected_bytes_stand_in_order(chunks, len, (n - 1) as nat, j, k);
    }
}

/// The part for the piece at index `k` starts behind all the pieces before it, and ends behind it
/// as well, or where the data ends.
pub proof fn parts_start_behind_the_pieces_before(lens: Seq<usize>, k: nat, total: nat)
    ensures
        sum(lens, 0) == 0,
        sum(lens, k + 1) == sum(lens, k) + lens[k as int],
        sum(lens, k) <= total ==> start_of(lens, k, total) == sum(lens, k),
        sum(lens, k) > total ==> start_of(lens, k, total) == total,
{
}

} // verus!
