//! The regions that pass through to the host: aligned to pages, in order, and merged where they
//! touch.

use vstd::prelude::*;

verus! {

/// A region: where it starts, and how long it is.
pub type Region = (usize, usize);

/// The greatest multiple of the page size that is not above `addr`.
pub open spec fn page_start(addr: int) -> int {
    addr / 0x1000 * 0x1000
}

/// The least multiple of the page size that is not below `len`.
pub open spec fn page_len(len: int) -> int {
    (len + 0xfff) / 0x1000 * 0x1000
}

/// `ax_memory_addr::align_down_4k`: clears the low twelve bits, which gives the start of the page
/// that the address lies in.
pub assume_specification[ ax_memory_addr::align_down_4k ](addr: usize) -> (r: usize)
    ensures
        r == page_start(addr as int),
;

/// `ax_memory_addr::align_up_4k`: adds the page size, takes one off and clears the low twelve
/// bits, which gives the next page boundary. The sum with the page size must not overflow.
pub assume_specification[ ax_memory_addr::align_up_4k ](addr: usize) -> (r: usize)
    requires
        addr + 0x1000 <= usize::MAX,
    ensures
        r == page_len(addr as int),
;

/// The pages that a region touches, counted from the page that it starts in.
pub open spec fn aligned(region: Region) -> Region {
    (page_start(region.0 as int) as usize, page_len(region.1 as int) as usize)
}

/// The regions, each aligned to pages.
pub open spec fn all_aligned(regions: Seq<Region>) -> Seq<Region> {
    regions.map_values(|r: Region| aligned(r))
}

/// The length of the region can be taken up to whole pages.
pub open spec fn alignable(region: Region) -> bool {
    region.1 + 0x1000 <= usize::MAX
}

/// The region ends within the address space.
pub open spec fn fits(region: Region) -> bool {
    region.0 + region.1 <= usize::MAX
}

/// Some region before the last of the first `n` reaches up to where that one starts.
pub open spec fn touched(s: Seq<Region>, n: nat) -> bool {
    exists|j: int| 0 <= j < n - 1 && (#[trigger] s[j]).0 + s[j].1 >= s[n - 1].0
}

/// The first `n` regions, which are in order, can be merged: all of them end within the address
/// space but the last, which has to do so only where another one reaches up to it.
pub open spec fn merge_fits(s: Seq<Region>, n: nat) -> bool {
    &&& forall|i: int| 0 <= i < n - 1 ==> fits(#[trigger] s[i])
    &&& n > 0 && touched(s, n) ==> fits(s[n - 1])
}

/// How many of the first `n` regions, which are in order, start at or before `start`.
pub open spec fn place(s: Seq<Region>, start: usize, n: nat) -> nat
    decreases n,
{
    if n == 0 || s[n - 1].0 <= start {
        n
    } else {
        place(s, start, (n - 1) as nat)
    }
}

/// The first `n` regions in the order of their starts; regions that start together keep their
/// order.
pub open spec fn ordered(regions: Seq<Region>, n: nat) -> Seq<Region>
    decreases n,
{
    if n == 0 {
        Seq::empty()
    } else {
        let before = ordered(regions, (n - 1) as nat);
        let region = regions[n - 1];
        before.insert(place(before, region.0, before.len()) as int, region)
    }
}

/// A region comes after others in order: it is taken into the last one where it touches it.
pub open spec fn merged_with(acc: Seq<Region>, region: Region) -> Seq<Region> {
    if acc.len() == 0 || acc.last().0 + acc.last().1 < region.0 {
        acc.push(region)
    } else {
        let last = acc.last();
        let end = if last.0 + last.1 >= region.0 + region.1 {
            last.0 + last.1
        } else {
            region.0 + region.1
        };
        acc.update(acc.len() - 1, (last.0, (end - last.0) as usize))
    }
}

/// The first `n` regions, which are in order, merged where they touch.
pub open spec fn merged(s: Seq<Region>, n: nat) -> Seq<Region>
    decreases n,
{
    if n == 0 {
        Seq::empty()
    } else {
        merged_with(merged(s, (n - 1) as nat), s[n - 1])
    }
}

/// What the regions come to: aligned, ordered and merged.
pub open spec fn passed_through(regions: Seq<Region>) -> Seq<Region> {
    let a = all_aligned(regions);
    let o = ordered(a, a.len());
    merged(o, o.len())
}

/// The regions can be aligned and merged.
pub open spec fn passable(regions: Seq<Region>) -> bool {
    let a = all_aligned(regions);
    &&& forall|i: int| 0 <= i < regions.len() ==> alignable(#[trigger] regions[i])
    &&& merge_fits(ordered(a, a.len()), a.len())
}

/// The address lies in the region.
pub open spec fn within(region: Region, a: int) -> bool {
    region.0 <= a < region.0 + region.1
}

/// The address lies in one of the regions.
pub open spec fn covered(s: Seq<Region>, a: int) -> bool {
    exists|i: int| 0 <= i < s.len() && within(#[trigger] s[i], a)
}

/// The regions are in the order of their starts.
pub open spec fn in_order(s: Seq<Region>) -> bool {
    forall|i: int, j: int| 0 <= i <= j < s.len() ==> (#[trigger] s[i]).0 <= (#[trigger] s[j]).0
}

/// Where a region belongs: after those that start at or before it, before the others.
proof fn place_splits(s: Seq<Region>, start: usize, n: nat)
    requires
        in_order(s),
        n <= s.len(),
    ensures
        place(s, start, n) <= n,
        forall|i: int| 0 <= i < place(s, start, n) ==> (#[trigger] s[i]).0 <= start,
        forall|i: int| place(s, start, n) <= i < n ==> (#[trigger] s[i]).0 > start,
    decreases n,
{
    if n > 0 && s[n - 1].0 > start {
        place_splits(s, start, (n - 1) as nat);
    }
}

/// Ordering puts the regions in order, keeps each of them, and adds none.
pub(crate) proof fn ordered_is_in_order(regions: Seq<Region>, n: nat)
    requires
        n <= regions.len(),
    ensures
        in_order(ordered(regions, n)),
        ordered(regions, n).len() == n,
        forall|i: int| 0 <= i < n ==> ordered(regions, n).contains(#[trigger] regions[i]),
        forall|k: int|
            0 <= k < n ==> exists|i: int|
                0 <= i < n && #[trigger] regions[i] == (#[trigger] ordered(regions, n)[k]),
    decreases n,
{
    if n > 0 {
        ordered_is_in_order(regions, (n - 1) as nat);
        let before = ordered(regions, (n - 1) as nat);
        let region = regions[n - 1];
        let at = place(before, region.0, before.len()) as int;
        let after = ordered(regions, n);
        place_splits(before, region.0, before.len());
        assert(after == before.insert(at, region));
        assert forall|i: int, j: int| 0 <= i <= j < after.len() implies (#[trigger] after[i]).0 <= (
        #[trigger] after[j]).0 by {
            if i < at {
                assert(after[i] == before[i]);
            } else if i > at {
                assert(after[i] == before[i - 1]);
            }
            if j < at {
                assert(after[j] == before[j]);
            } else if j > at {
                assert(after[j] == before[j - 1]);
            }
        }
        assert forall|i: int| 0 <= i < n implies after.contains(#[trigger] regions[i]) by {
            if i == n - 1 {
                assert(after[at] == region);
            } else {
                let k = before.index_of(regions[i]);
                assert(before.contains(regions[i]));
                if k < at {
                    assert(after[k] == regions[i]);
                } else {
                    assert(after[k + 1] == regions[i]);
                }
            }
        }
        assert forall|k: int| 0 <= k < n implies exists|i: int|
            0 <= i < n && #[trigger] regions[i] == (#[trigger] after[k]) by {
            if k == at {
                assert(regions[n - 1] == after[k]);
            } else {
                let b = if k < at {
                    k
                } else {
                    k - 1
                };
                assert(after[k] == before[b]);
                let i = choose|i: int|
                    0 <= i < n - 1 && #[trigger] regions[i] == before[b];
                assert(regions[i] == after[k]);
            }
        }
    }
}

/// Merging ordered regions leaves a gap between any two of them, and covers what they cover.
proof fn merged_is_separated(s: Seq<Region>, n: nat)
    requires
        in_order(s),
        n <= s.len(),
        merge_fits(s, n),
    ensures
        n > 0 ==> merged(s, n).len() > 0 && merged(s, n).last().0 <= s[n - 1].0,
        n > 0 ==> exists|j: int|
            0 <= j < n && merged(s, n).last().0 + merged(s, n).last().1 == (#[trigger] s[j]).0
                + s[j].1,
        forall|i: int, j: int|
            0 <= i < j < merged(s, n).len() ==> (#[trigger] merged(s, n)[i]).0 + merged(s, n)[i].1
                < (#[trigger] merged(s, n)[j]).0,
        forall|a: int| #[trigger] covered(merged(s, n), a) <==> covered(s.take(n as int), a),
    decreases n,
{
    if n == 0 {
        assert forall|a: int| #[trigger] covered(merged(s, n), a) <==> covered(
            s.take(n as int),
            a,
        ) by {}
    } else {
        if n > 1 {
            assert(fits(s[n - 2]));
        }
        merged_is_separated(s, (n - 1) as nat);
        let acc = merged(s, (n - 1) as nat);
        let region = s[n - 1];
        let out = merged(s, n);
        let shorter = s.take(n - 1);
        let longer = s.take(n as int);
        if acc.len() > 0 {
            assert(n > 1);
            assert(s[n - 2].0 <= s[n - 1].0);
            let j = choose|j: int|
                0 <= j < n - 1 && acc.last().0 + acc.last().1 == (#[trigger] s[j]).0 + s[j].1;
            assert(fits(s[j]));
            if acc.last().0 + acc.last().1 >= region.0 {
                assert(touched(s, n));
                if acc.last().0 + acc.last().1 >= region.0 + region.1 {
                    assert(out.last().0 + out.last().1 == s[j].0 + s[j].1);
                } else {
                    assert(out.last().0 + out.last().1 == s[n - 1].0 + s[n - 1].1);
                }
            } else {
                assert(out.last() == s[n - 1]);
            }
        } else {
            assert(out.last() == s[n - 1]);
        }
        assert forall|a: int| #[trigger] covered(out, a) <==> covered(longer, a) by {
            assert(covered(acc, a) <==> covered(shorter, a));
            if covered(longer, a) {
                let i = choose|i: int| 0 <= i < longer.len() && within(#[trigger] longer[i], a);
                if i < n - 1 {
                    assert(within(shorter[i], a));
                    let k = choose|k: int| 0 <= k < acc.len() && within(#[trigger] acc[k], a);
                    assert(within(out[k], a));
                } else {
                    assert(within(out[out.len() - 1], a));
                }
            }
            if covered(out, a) {
                let k = choose|k: int| 0 <= k < out.len() && within(#[trigger] out[k], a);
                if k < out.len() - 1 {
                    assert(out[k] == acc[k]);
                    assert(covered(acc, a));
                } else if within(region, a) {
                    assert(within(longer[n - 1], a));
                } else {
                    assert(within(acc[acc.len() - 1], a));
                    assert(covered(acc, a));
                }
                if covered(shorter, a) {
                    let i = choose|i: int|
                        0 <= i < shorter.len() && within(#[trigger] shorter[i], a);
                    assert(within(longer[i], a));
                }
            }
        }
    }
}

/// The regions that pass through are in order with a gap between any two of them, and they cover
/// exactly the addresses that the aligned regions cover.
pub proof fn passed_through_covers_the_same(regions: Seq<Region>)
    requires
        passable(regions),
    ensures
        forall|i: int, j: int|
            0 <= i < j < passed_through(regions).len() ==> (#[trigger] passed_through(regions)[i]).0
                + passed_through(regions)[i].1 < (#[trigger] passed_through(regions)[j]).0,
        forall|a: int|
            #[trigger] covered(passed_through(regions), a) <==> covered(all_aligned(regions), a),
{
    let a = all_aligned(regions);
    let o = ordered(a, a.len());
    ordered_is_in_order(a, a.len());
    merged_is_separated(o, o.len());
    assert(o.take(o.len() as int) =~= o);
    assert forall|x: int| #[trigger] covered(passed_through(regions), x) <==> covered(a, x) by {
        assert(covered(merged(o, o.len()), x) <==> covered(o.take(o.len() as int), x));
        if covered(a, x) {
            let i = choose|i: int| 0 <= i < a.len() && within(#[trigger] a[i], x);
            let k = o.index_of(a[i]);
            assert(o.contains(a[i]));
            assert(within(o[k], x));
        }
        if covered(o, x) {
            let k = choose|k: int| 0 <= k < o.len() && within(#[trigger] o[k], x);
            let i = choose|i: int| 0 <= i < a.len() && #[trigger] a[i] == o[k];
            assert(within(a[i], x));
        }
    }
}

/// Merging keeps regions on page boundaries that are on page boundaries.
proof fn merged_is_page_aligned(s: Seq<Region>, n: nat)
    requires
        in_order(s),
        n <= s.len(),
        merge_fits(s, n),
        forall|i: int|
            0 <= i < s.len() ==> (#[trigger] s[i]).0 % 0x1000 == 0 && s[i].1 % 0x1000 == 0,
    ensures
        forall|i: int|
            0 <= i < merged(s, n).len() ==> (#[trigger] merged(s, n)[i]).0 % 0x1000 == 0 && merged(
                s,
                n,
            )[i].1 % 0x1000 == 0,
    decreases n,
{
    if n > 0 {
        if n > 1 {
            assert(fits(s[n - 2]));
        }
        merged_is_page_aligned(s, (n - 1) as nat);
        merged_is_separated(s, (n - 1) as nat);
        let acc = merged(s, (n - 1) as nat);
        let out = merged(s, n);
        let region = s[n - 1];
        if acc.len() > 0 {
            assert(s[n - 2].0 <= s[n - 1].0);
            assert(acc[acc.len() - 1].0 % 0x1000 == 0 && acc[acc.len() - 1].1 % 0x1000 == 0);
            let j = choose|j: int|
                0 <= j < n - 1 && acc.last().0 + acc.last().1 == (#[trigger] s[j]).0 + s[j].1;
            assert(fits(s[j]));
            if acc.last().0 + acc.last().1 >= region.0 {
                assert(touched(s, n));
            }
        }
        assert forall|i: int| 0 <= i < out.len() implies (#[trigger] out[i]).0 % 0x1000 == 0
            && out[i].1 % 0x1000 == 0 by {
            if i < out.len() - 1 {
                assert(out[i] == acc[i]);
            }
        }
    }
}

/// The regions that pass through start and end on page boundaries.
pub proof fn passed_through_is_page_aligned(regions: Seq<Region>)
    requires
        passable(regions),
    ensures
        forall|i: int|
            0 <= i < passed_through(regions).len() ==> (#[trigger] passed_through(regions)[i]).0
                % 0x1000 == 0 && passed_through(regions)[i].1 % 0x1000 == 0,
{
    let a = all_aligned(regions);
    let o = ordered(a, a.len());
    ordered_is_in_order(a, a.len());
    assert forall|k: int| 0 <= k < o.len() implies (#[trigger] o[k]).0 % 0x1000 == 0 && o[k].1
        % 0x1000 == 0 by {
        let i = choose|i: int| 0 <= i < a.len() && #[trigger] a[i] == o[k];
        assert(alignable(regions[i]));
        assert(a[i] == aligned(regions[i]));
    }
    merged_is_page_aligned(o, o.len());
}

/// Puts the regions into the order of their starts.
fn order_regions(regions: &Vec<Region>) -> (out: Vec<Region>)
    ensures
        out@ == ordered(regions@, regions@.len()),
{
    let mut out: Vec<Region> = Vec::new();
    let mut n: usize = 0;
    while n < regions.len()
        invariant
            n <= regions@.len(),
            out@ == ordered(regions@, n as nat),
            out@.len() == n,
        decreases regions@.len() - n,
    {
        let region = regions[n];
        let mut at: usize = out.len();
        while at > 0 && out[at - 1].0 > region.0
            invariant
                at <= out@.len(),
                place(out@, region.0, out@.len()) == place(out@, region.0, at as nat),
            decreases at,
        {
            at = at - 1;
        }
        out.insert(at, region);
        n = n + 1;
    }
    out
}

/// Merges regions that are in order where they touch.
fn merge_regions(s: &Vec<Region>) -> (out: Vec<Region>)
    requires
        in_order(s@),
        merge_fits(s@, s@.len()),
    ensures
        out@ == merged(s@, s@.len()),
{
    let mut out: Vec<Region> = Vec::new();
    let mut n: usize = 0;
    while n < s.len()
        invariant
            n <= s@.len(),
            in_order(s@),
            merge_fits(s@, s@.len()),
            out@ == merged(s@, n as nat),
        decreases s@.len() - n,
    {
        let (gpa, len) = s[n];
        proof {
            if n > 0 {
                assert(fits(s@[n - 1]));
                assert(merge_fits(s@, n as nat));
                merged_is_separated(s@, n as nat);
                assert(s@[n - 1].0 <= s@[n as int].0);
                let j = choose|j: int|
                    0 <= j < n && out@.last().0 + out@.last().1 == (#[trigger] s@[j]).0 + s@[j].1;
                assert(fits(s@[j]));
                if n + 1 < s@.len() {
                    assert(fits(s@[n as int]));
                } else if out@.last().0 + out@.last().1 >= s@[n as int].0 {
                    assert(touched(s@, s@.len()));
                }
            }
        }
        if out.len() == 0 {
            out.push((gpa, len));
        } else {
            let last = out[out.len() - 1];
            let last_end: usize = last.0 + last.1;
            if last_end >= gpa {
                let end: usize = if last_end >= gpa + len {
                    last_end
                } else {
                    gpa + len
                };
                let i: usize = out.len() - 1;
                out[i] = (last.0, end - last.0);
            } else {
                out.push((gpa, len));
            }
        }
        n = n + 1;
    }
    out
}

/// Aligns a region to pages.
fn align_region(region: Region) -> (r: Region)
    requires
        alignable(region),
    ensures
        r == aligned(region),
{
    (ax_memory_addr::align_down_4k(region.0), ax_memory_addr::align_up_4k(region.1))
}

/// The regions of devices and of addresses, each aligned to pages, in order.
fn aligned_in_order(devices: &[Region], addresses: &[Region]) -> (out: Vec<Region>)
    requires
        forall|i: int| 0 <= i < devices@.len() ==> alignable(#[trigger] devices@[i]),
        forall|i: int| 0 <= i < addresses@.len() ==> alignable(#[trigger] addresses@[i]),
    ensures
        ({
            let a = all_aligned(devices@ + addresses@);
            out@ == ordered(a, a.len())
        }),
{
    let ghost all = devices@ + addresses@;
    let mut regions: Vec<Region> = Vec::new();
    let mut i: usize = 0;
    while i < devices.len()
        invariant
            i <= devices@.len(),
            forall|k: int| 0 <= k < devices@.len() ==> alignable(#[trigger] devices@[k]),
            all == devices@ + addresses@,
            regions@ == all_aligned(all).take(i as int),
        decreases devices@.len() - i,
    {
        regions.push(align_region(devices[i]));
        i = i + 1;
        assert(regions@ =~= all_aligned(all).take(i as int));
    }
    let mut j: usize = 0;
    while j < addresses.len()
        invariant
            j <= addresses@.len(),
            forall|k: int| 0 <= k < addresses@.len() ==> alignable(#[trigger] addresses@[k]),
            all == devices@ + addresses@,
            regions@ == all_aligned(all).take(devices@.len() + j),
        decreases addresses@.len() - j,
    {
        regions.push(align_region(addresses[j]));
        j = j + 1;
        assert(regions@ =~= all_aligned(all).take(devices@.len() + j));
    }
    assert(regions@ =~= all_aligned(all));
    order_regions(&regions)
}

/// Whether the lengths of all regions can be taken up to whole pages.
fn all_alignable(regions: &[Region]) -> (b: bool)
    ensures
        b == forall|i: int| 0 <= i < regions@.len() ==> alignable(#[trigger] regions@[i]),
{
    let mut i: usize = 0;
    while i < regions.len()
        invariant
            i <= regions@.len(),
            forall|k: int| 0 <= k < i ==> alignable(#[trigger] regions@[k]),
        decreases regions@.len() - i,
    {
        if regions[i].1 > usize::MAX - 0x1000 {
            assert(!alignable(regions@[i as int]));
            return false;
        }
        i = i + 1;
    }
    true
}

/// Whether regions that are in order can be merged.
fn can_merge(s: &Vec<Region>) -> (b: bool)
    ensures
        b == merge_fits(s@, s@.len()),
{
    let mut touched_last: bool = false;
    let mut i: usize = 0;
    while i < s.len()
        invariant
            i <= s@.len(),
            forall|k: int| 0 <= k < i && k < s@.len() - 1 ==> fits(#[trigger] s@[k]),
            touched_last == exists|j: int|
                0 <= j < i && j < s@.len() - 1 && (#[trigger] s@[j]).0 + s@[j].1 >= s@[s@.len()
                    - 1].0,
            i == s@.len() ==> merge_fits(s@, s@.len()),
        decreases s@.len() - i,
    {
        let (start, len) = s[i];
        let fit: bool = len <= usize::MAX - start;
        if i + 1 < s.len() {
            if !fit {
                assert(!fits(s@[i as int]));
                return false;
            }
            if start + len >= s[s.len() - 1].0 {
                touched_last = true;
            }
        } else if touched_last && !fit {
            assert(touched(s@, s@.len()));
            return false;
        }
        i = i + 1;
    }
    if s.len() == 0 {
        assert(merge_fits(s@, 0));
    }
    true
}

/// Whether the regions of devices and addresses can be aligned and merged.
pub fn can_pass_through(devices: &[Region], addresses: &[Region]) -> (b: bool)
    ensures
        b == passable(devices@ + addresses@),
{
    let ghost all = devices@ + addresses@;
    proof {
        ordered_is_in_order(all_aligned(all), all.len());
    }
    if !all_alignable(devices) {
        let ghost i = choose|i: int| 0 <= i < devices@.len() && !alignable(#[trigger] devices@[i]);
        assert(!alignable(all[i]));
        return false;
    }
    if !all_alignable(addresses) {
        let ghost i = choose|i: int|
            0 <= i < addresses@.len() && !alignable(#[trigger] addresses@[i]);
        assert(!alignable(all[devices@.len() + i]));
        return false;
    }
    can_merge(&aligned_in_order(devices, addresses))
}

/// The regions to map one to one for devices and addresses that pass through: aligned to pages,
/// in order, and merged where they touch.
pub fn passthrough_regions(devices: &[Region], addresses: &[Region]) -> (out: Vec<Region>)
    requires
        passable(devices@ + addresses@),
    ensures
        out@ == passed_through(devices@ + addresses@),
{
    proof {
        let all = devices@ + addresses@;
        assert forall|i: int| 0 <= i < devices@.len() implies alignable(#[trigger] devices@[i]) by {
            assert(alignable(all[i]));
        }
        assert forall|i: int| 0 <= i < addresses@.len() implies alignable(
            #[trigger] addresses@[i],
        ) by {
            assert(alignable(all[devices@.len() + i]));
        }
        ordered_is_in_order(all_aligned(all), all.len());
    }
    let regions = aligned_in_order(devices, addresses);
    merge_regions(&regions)
}

/// The size of a channel between machines that was asked for, in whole pages.
pub fn ivc_channel_size(expected_size: usize) -> (size: usize)
    requires
        expected_size + 0x1000 <= usize::MAX,
    ensures
        size == page_len(expected_size as int),
        size >= expected_size,
        size % 0x1000 == 0,
{
    ax_memory_addr::align_up_4k(expected_size)
}

} // verus!
