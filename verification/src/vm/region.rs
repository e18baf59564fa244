//! The memory regions of a machine.

use vstd::prelude::*;

use crate::error::VmError;

verus! {

/// What a mapping into the guest allows, and what kind of memory it maps.
#[derive(Debug, Clone, Copy, PartialEq, Eq, Structural)]
pub struct MapFlags {
    pub read: bool,
    pub write: bool,
    pub execute: bool,
    pub user: bool,
    pub device: bool,
}

impl MapFlags {
    /// Memory that the guest may read, write and execute.
    pub open spec fn for_memory() -> MapFlags {
        MapFlags { read: true, write: true, execute: true, user: true, device: false }
    }

    /// Registers of a device that the guest may read and write.
    pub open spec fn for_device() -> MapFlags {
        MapFlags { read: true, write: true, execute: false, user: true, device: true }
    }

    /// The page on which accesses to the local interrupt controller are caught.
    pub open spec fn for_apic_access() -> MapFlags {
        MapFlags { read: true, write: true, execute: false, user: false, device: true }
    }

    /// Memory that the guest may read, write and execute.
    pub fn memory() -> (flags: MapFlags)
        ensures
            flags == MapFlags::for_memory(),
    {
        MapFlags { read: true, write: true, execute: true, user: true, device: false }
    }

    /// Registers of a device that the guest may read and write.
    pub fn device() -> (flags: MapFlags)
        ensures
            flags == MapFlags::for_device(),
    {
        MapFlags { read: true, write: true, execute: false, user: true, device: true }
    }

    /// The page on which accesses to the local interrupt controller are caught.
    pub fn apic_access() -> (flags: MapFlags)
        ensures
            flags == MapFlags::for_apic_access(),
    {
        MapFlags { read: true, write: true, execute: false, user: false, device: true }
    }
}

/// A region of memory that the machine has.
#[derive(Debug, Clone, Copy, PartialEq, Eq, Structural)]
pub struct VMMemoryRegion {
    /// Where the region starts in the guest.
    pub gpa: u64,
    /// Where the region starts in the address space of the host.
    pub hva: u64,
    /// Where the region starts in the physical memory of the host.
    pub hpa: u64,
    /// How many bytes the region has.
    pub len: u64,
    /// The alignment with which the region was allocated.
    pub align: u64,
    /// The region was allocated, and is to be freed.
    pub needs_dealloc: bool,
}

impl VMMemoryRegion {
    /// The region ends within the address space of the guest.
    pub open spec fn fits(self) -> bool {
        self.gpa + self.len <= u64::MAX
    }

    /// The address lies in the region.
    pub open spec fn holds(self, gpa: int) -> bool {
        self.gpa <= gpa < self.gpa + self.len
    }

    /// The region for memory that was allocated at `hva`.
    pub open spec fn for_allocated(
        gpa: Option<u64>,
        hva: u64,
        hpa: u64,
        len: u64,
        align: u64,
    ) -> VMMemoryRegion {
        VMMemoryRegion {
            gpa: match gpa {
                Some(gpa) => gpa,
                None => hpa,
            },
            hva,
            hpa,
            len,
            align,
            needs_dealloc: true,
        }
    }

    /// The region for memory that is reserved at the same address everywhere.
    pub open spec fn for_reserved(gpa: u64, len: u64, align: u64) -> VMMemoryRegion {
        VMMemoryRegion { gpa, hva: gpa, hpa: gpa, len, align, needs_dealloc: false }
    }

    /// How many bytes the region has.
    pub fn size(&self) -> (n: u64)
        ensures
            n == self.len,
    {
        self.len
    }

    /// Where the region starts in the physical memory of the host.
    pub fn host_paddr(&self) -> (hpa: u64)
        ensures
            hpa == self.hpa,
    {
        self.hpa
    }

    /// Whether the region starts at the same address in the guest and in the host.
    pub fn is_identical(&self) -> (b: bool)
        ensures
            b == (self.gpa == self.hpa),
    {
        self.gpa == self.host_paddr()
    }

    /// The region for memory that was allocated at `hva`. Where no address in the guest is asked
    /// for, it is the physical address in the host.
    pub fn allocated(gpa: Option<u64>, hva: u64, hpa: u64, len: u64, align: u64) -> (region:
        VMMemoryRegion)
        ensures
            region == VMMemoryRegion::for_allocated(gpa, hva, hpa, len, align),
    {
        let gpa: u64 = match gpa {
            Some(gpa) => gpa,
            None => hpa,
        };
        VMMemoryRegion { gpa, hva, hpa, len, align, needs_dealloc: true }
    }

    /// The region for memory that is reserved for the machine at the same address everywhere.
    pub fn reserved(gpa: u64, len: u64, align: u64) -> (region: VMMemoryRegion)
        ensures
            region == VMMemoryRegion::for_reserved(gpa, len, align),
    {
        VMMemoryRegion { gpa, hva: gpa, hpa: gpa, len, align, needs_dealloc: false }
    }
}

/// The indices from `i` on of the regions that hold an address.
pub open spec fn hits(regions: Seq<VMMemoryRegion>, gpa: int, i: nat) -> Seq<usize>
    decreases regions.len() - i,
{
    if i >= regions.len() {
        Seq::empty()
    } else if regions[i as int].holds(gpa) {
        seq![i as usize] + hits(regions, gpa, i + 1)
    } else {
        hits(regions, gpa, i + 1)
    }
}

/// The indices of the regions that hold an address.
pub fn regions_holding(regions: &[VMMemoryRegion], gpa: u64) -> (found: Vec<usize>)
    requires
        forall|i: int| 0 <= i < regions@.len() ==> (#[trigger] regions@[i]).fits(),
    ensures
        found@ == hits(regions@, gpa as int, 0),
{
    let mut found: Vec<usize> = Vec::new();
    let mut i: usize = 0;
    let ghost whole = hits(regions@, gpa as int, 0);
    assert(whole =~= found@ + whole);
    while i < regions.len()
        invariant
            i <= regions@.len(),
            forall|k: int| 0 <= k < regions@.len() ==> (#[trigger] regions@[k]).fits(),
            whole == hits(regions@, gpa as int, 0),
            whole == found@ + hits(regions@, gpa as int, i as nat),
        decreases regions@.len() - i,
    {
        let region = regions[i];
        assert(regions@[i as int].fits());
        let end: u64 = region.gpa + region.size();
        if region.gpa <= gpa && gpa < end {
            let ghost before = found@;
            found.push(i);
            proof {
                let rest = hits(regions@, gpa as int, (i + 1) as nat);
                assert(before + (seq![i] + rest) =~= found@ + rest);
            }
        }
        i = i + 1;
    }
    assert(found@ + Seq::<usize>::empty() =~= found@);
    found
}

/// The index of a region is among the hits exactly where the region holds the address.
pub proof fn hits_are_the_holding_regions(
    regions: Seq<VMMemoryRegion>,
    gpa: int,
    from: nat,
    k: int,
)
    requires
        regions.len() <= usize::MAX,
    ensures
        hits(regions, gpa, from).contains(k as usize) && 0 <= k <= usize::MAX <==> from <= k
            < regions.len() && regions[k].holds(gpa),
    decreases regions.len() - from,
{
    if from < regions.len() {
        hits_are_the_holding_regions(regions, gpa, from + 1, k);
        let rest = hits(regions, gpa, from + 1);
        if regions[from as int].holds(gpa) {
            let all = seq![from as usize] + rest;
            assert(all[0] == from as usize);
            if rest.contains(k as usize) {
                let i = rest.index_of(k as usize);
                assert(all[i + 1] == k as usize);
            }
            if all.contains(k as usize) && k != from && 0 <= k <= usize::MAX {
                let i = all.index_of(k as usize);
                assert(rest[i - 1] == k as usize);
            }
        }
    }
}

/// A step of letting go of the memory of a machine.
#[derive(Debug, Clone, Copy, PartialEq, Eq, Structural)]
pub enum CleanupStep {
    /// Unmap a region from the guest.
    Unmap { gpa: u64, len: u64 },
    /// Free memory of the host, with the layout with which it was allocated.
    Dealloc { hva: u64, len: u64, align: u64 },
    /// Remove every mapping that is left in the address space.
    ClearSpace,
}

/// The step that unmaps a region.
pub open spec fn unmap_step(r: VMMemoryRegion) -> CleanupStep {
    CleanupStep::Unmap { gpa: r.gpa, len: r.len }
}

/// The step that frees a region.
pub open spec fn dealloc_step(r: VMMemoryRegion) -> CleanupStep {
    CleanupStep::Dealloc { hva: r.hva, len: r.len, align: r.align }
}

/// The steps that unmap the regions: all of them, in order.
pub open spec fn to_unmap(regions: Seq<VMMemoryRegion>) -> Seq<CleanupStep> {
    regions.map_values(|r: VMMemoryRegion| unmap_step(r))
}

/// The steps that free regions among the first `n`: those that were allocated, in order.
pub open spec fn to_dealloc(regions: Seq<VMMemoryRegion>, n: nat) -> Seq<CleanupStep>
    decreases n,
{
    if n == 0 {
        Seq::empty()
    } else if regions[n - 1].needs_dealloc {
        to_dealloc(regions, (n - 1) as nat).push(dealloc_step(regions[n - 1]))
    } else {
        to_dealloc(regions, (n - 1) as nat)
    }
}

/// The steps of letting go of the regions of a machine, in order: every region is unmapped, then
/// what was allocated is freed, and the address space is cleared last.
pub open spec fn cleanup_steps(regions: Seq<VMMemoryRegion>) -> Seq<CleanupStep> {
    to_unmap(regions) + to_dealloc(regions, regions.len()) + seq![CleanupStep::ClearSpace]
}

/// Nothing is freed before everything is unmapped, and the address space is cleared once, last.
pub open spec fn safely_ordered(steps: Seq<CleanupStep>) -> bool {
    &&& forall|i: int, j: int|
        0 <= i < steps.len() && 0 <= j < steps.len() && (#[trigger] steps[i]) is Unmap && (
        #[trigger] steps[j]) is Dealloc ==> i < j
    &&& steps.len() > 0
    &&& forall|i: int|
        0 <= i < steps.len() ==> ((#[trigger] steps[i]) is ClearSpace <==> i == steps.len() - 1)
}

/// The steps of letting go of the memory of a machine, and how many of them have been handed out.
#[derive(Debug)]
pub struct CleanupPlan {
    pub steps: Vec<CleanupStep>,
    pub done: usize,
}

impl CleanupPlan {
    /// Hands out the next step, until there is none. What came of the step before does not
    /// matter: a step that fails stops none of the others.
    pub fn next_step(&mut self, last: Result<(), VmError>) -> (step: Option<CleanupStep>)
        ensures
            final(self).steps@ == old(self).steps@,
            step == if old(self).done < old(self).steps@.len() {
                Some(old(self).steps@[old(self).done as int])
            } else {
                None
            },
            final(self).done == if old(self).done < old(self).steps@.len() {
                old(self).done + 1
            } else {
                old(self).done as int
            },
    {
        if self.done < self.steps.len() {
            let step = self.steps[self.done];
            self.done = self.done + 1;
            Some(step)
        } else {
            None
        }
    }
}

/// What is freed was allocated, and comes from one of the regions: the freeing step at index `k`
/// is that of an allocated region.
pub proof fn freed_regions_were_allocated(regions: Seq<VMMemoryRegion>, n: nat, k: int)
    requires
        n <= regions.len(),
        0 <= k < to_dealloc(regions, n).len(),
    ensures
        exists|i: int|
            {
                &&& 0 <= i < n
                &&& (#[trigger] regions[i]).needs_dealloc
                &&& to_dealloc(regions, n)[k] == dealloc_step(regions[i])
                &&& to_unmap(regions)[i] == unmap_step(regions[i])
            },
        to_dealloc(regions, n)[k] is Dealloc,
    decreases n,
{
    if n > 0 {
        let shorter = to_dealloc(regions, (n - 1) as nat);
        if k < shorter.len() {
            freed_regions_were_allocated(regions, (n - 1) as nat, k);
        } else {
            assert(regions[n - 1].needs_dealloc);
        }
    }
}

/// How many of the first `n` regions were allocated.
pub open spec fn allocated_count(regions: Seq<VMMemoryRegion>, n: nat) -> nat
    decreases n,
{
    if n == 0 {
        0
    } else if regions[n - 1].needs_dealloc {
        allocated_count(regions, (n - 1) as nat) + 1
    } else {
        allocated_count(regions, (n - 1) as nat)
    }
}

/// Every region that was allocated is freed once: it has a freeing step of its own, the one whose
/// index is the number of allocated regions before it, and there are no others.
pub proof fn allocated_regions_are_freed(regions: Seq<VMMemoryRegion>, n: nat, i: int)
    requires
        n <= regions.len(),
        0 <= i < n,
        regions[i].needs_dealloc,
    ensures
        to_dealloc(regions, n).len() == allocated_count(regions, n),
        allocated_count(regions, i as nat) < allocated_count(regions, n),
        to_dealloc(regions, n)[allocated_count(regions, i as nat) as int] == dealloc_step(
            regions[i],
        ),
    decreases n,
{
    freeing_steps_count(regions, n);
    freeing_steps_count(regions, (n - 1) as nat);
    if i < n - 1 {
        allocated_regions_are_freed(regions, (n - 1) as nat, i);
    }
}

/// There are as many freeing steps as allocated regions.
pub(crate) proof fn freeing_steps_count(regions: Seq<VMMemoryRegion>, n: nat)
    ensures
        to_dealloc(regions, n).len() == allocated_count(regions, n),
    decreases n,
{
    if n > 0 {
        freeing_steps_count(regions, (n - 1) as nat);
    }
}

/// The steps of a cleanup are in a safe order, and every region has its unmapping step.
pub proof fn cleanup_is_safely_ordered(regions: Seq<VMMemoryRegion>)
    ensures
        safely_ordered(cleanup_steps(regions)),
        forall|i: int|
            0 <= i < regions.len() ==> #[trigger] cleanup_steps(regions)[i] == unmap_step(
                regions[i],
            ),
{
    let steps = cleanup_steps(regions);
    let freed = to_dealloc(regions, regions.len());
    assert forall|i: int| 0 <= i < steps.len() implies {
        &&& (#[trigger] steps[i]) is Unmap <==> i < regions.len()
        &&& steps[i] is ClearSpace <==> i == steps.len() - 1
    } by {
        if regions.len() <= i < steps.len() - 1 {
            assert(steps[i] == freed[i - regions.len()]);
            freed_regions_were_allocated(regions, regions.len(), i - regions.len());
        } else if i < regions.len() {
            assert(steps[i] == to_unmap(regions)[i]);
        }
    }
    assert forall|i: int, j: int|
        0 <= i < steps.len() && 0 <= j < steps.len() && (#[trigger] steps[i]) is Unmap && (
        #[trigger] steps[j]) is Dealloc implies i < j by {
        assert(!(steps[j] is Unmap));
    }
}

/// Cleaning up a machine that has no regions left, such as one that was cleaned up before, frees
/// and unmaps nothing.
pub proof fn second_cleanup_frees_nothing()
    ensures
        cleanup_steps(Seq::empty()) == seq![CleanupStep::ClearSpace],
{
    assert(cleanup_steps(Seq::empty()) =~= seq![CleanupStep::ClearSpace]);
}

/// What is to be done with the regions of a machine that goes away.
pub fn plan_cleanup(regions: &[VMMemoryRegion]) -> (plan: CleanupPlan)
    ensures
        plan.steps@ == cleanup_steps(regions@),
        safely_ordered(plan.steps@),
        plan.done == 0,
{
    let mut steps: Vec<CleanupStep> = Vec::new();
    let mut i: usize = 0;
    while i < regions.len()
        invariant
            i <= regions@.len(),
            steps@ == to_unmap(regions@).take(i as int),
        decreases regions@.len() - i,
    {
        let region = regions[i];
        steps.push(CleanupStep::Unmap { gpa: region.gpa, len: region.size() });
        i = i + 1;
        assert(steps@ =~= to_unmap(regions@).take(i as int));
    }
    let mut j: usize = 0;
    assert(steps@ =~= to_unmap(regions@) + to_dealloc(regions@, 0));
    while j < regions.len()
        invariant
            j <= regions@.len(),
            steps@ == to_unmap(regions@) + to_dealloc(regions@, j as nat),
        decreases regions@.len() - j,
    {
        let region = regions[j];
        if region.needs_dealloc {
            steps.push(
                CleanupStep::Dealloc { hva: region.hva, len: region.size(), align: region.align },
            );
        }
        j = j + 1;
        assert(steps@ =~= to_unmap(regions@) + to_dealloc(regions@, j as nat));
    }
    steps.push(CleanupStep::ClearSpace);
    proof {
        assert(steps@ =~= cleanup_steps(regions@));
        cleanup_is_safely_ordered(regions@);
    }
    CleanupPlan { steps, done: 0 }
}

/// The guest may read and write everything that is mapped, but it may execute memory alone, and
/// may not use the page of the local interrupt controller itself. Memory is the only thing that is
/// not a device.
pub proof fn mappings_allow_what_they_are_for()
    ensures
        MapFlags::for_memory().read && MapFlags::for_memory().write,
        MapFlags::for_device().read && MapFlags::for_device().write,
        MapFlags::for_apic_access().read && MapFlags::for_apic_access().write,
        MapFlags::for_memory().execute && !MapFlags::for_device().execute
            && !MapFlags::for_apic_access().execute,
        MapFlags::for_memory().user && MapFlags::for_device().user
            && !MapFlags::for_apic_access().user,
        !MapFlags::for_memory().device && MapFlags::for_device().device
            && MapFlags::for_apic_access().device,
{
}

} // verus!
