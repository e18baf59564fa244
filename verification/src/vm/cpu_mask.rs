//! Which virtual processors an interrupt goes to.

use vstd::prelude::*;

use ax_cpumask::CpuMask;

verus! {

/// How many virtual processors a mask has room for.
pub const TEMP_MAX_VCPU_NUM: usize = 64;

/// A set of virtual processors, kept as the bits of an `ax_cpumask::CpuMask`.
#[verifier::external_body]
pub struct VcpuMask {
    mask: CpuMask<TEMP_MAX_VCPU_NUM>,
}

/// The processors whose bits are set in the mask.
pub uninterp spec fn mask_cpus(mask: VcpuMask) -> Set<int>;

/// `CpuMask::new`: a mask without a set bit.
#[verifier::external_body]
fn empty_mask() -> (mask: VcpuMask)
    ensures
        mask_cpus(mask) == Set::<int>::empty(),
{
    VcpuMask { mask: CpuMask::new() }
}

/// `CpuMask::set`: sets or clears one bit, leaves the others alone, and returns what the bit was.
/// The index must be one of the mask.
#[verifier::external_body]
fn set_bit(mask: &mut VcpuMask, index: usize, value: bool) -> (previous: bool)
    requires
        index < 64,
    ensures
        previous == mask_cpus(*old(mask)).contains(index as int),
        mask_cpus(*final(mask)) == if value {
            mask_cpus(*old(mask)).insert(index as int)
        } else {
            mask_cpus(*old(mask)).remove(index as int)
        },
{
    mask.mask.set(index, value)
}

/// `CpuMask::get`: whether a bit is set. The index must be one of the mask.
#[verifier::external_body]
fn get_bit(mask: &VcpuMask, index: usize) -> (b: bool)
    requires
        index < 64,
    ensures
        b == mask_cpus(*mask).contains(index as int),
{
    mask.mask.get(index)
}

impl View for VcpuMask {
    type V = Set<int>;

    open spec fn view(&self) -> Set<int> {
        mask_cpus(*self)
    }
}

/// The processors in a list.
pub open spec fn listed(cpus: Seq<usize>) -> Set<int> {
    Set::new(|c: int| exists|i: int| 0 <= i < cpus.len() && #[trigger] cpus[i] == c)
}

impl VcpuMask {
    /// The set of the processors in a list.
    pub fn from_cpus(cpus: &[usize]) -> (mask: VcpuMask)
        requires
            forall|i: int| 0 <= i < cpus@.len() ==> #[trigger] cpus@[i] < 64,
        ensures
            mask@ == listed(cpus@),
    {
        let mut mask = empty_mask();
        let mut i: usize = 0;
        assert(mask@ =~= listed(cpus@.take(0)));
        while i < cpus.len()
            invariant
                i <= cpus@.len(),
                forall|k: int| 0 <= k < cpus@.len() ==> #[trigger] cpus@[k] < 64,
                mask@ == listed(cpus@.take(i as int)),
            decreases cpus@.len() - i,
        {
            let ghost before = cpus@.take(i as int);
            let _ = set_bit(&mut mask, cpus[i], true);
            i = i + 1;
            proof {
                let after = cpus@.take(i as int);
                assert forall|c: int| #[trigger] mask@.contains(c) <==> listed(after).contains(
                    c,
                ) by {
                    if listed(before).contains(c) {
                        let k = choose|k: int| 0 <= k < before.len() && #[trigger] before[k] == c;
                        assert(after[k] == c);
                    }
                    if c == cpus@[i - 1] {
                        assert(after[i - 1] == c);
                    }
                    if listed(after).contains(c) {
                        let k = choose|k: int| 0 <= k < after.len() && #[trigger] after[k] == c;
                        if k < i - 1 {
                            assert(before[k] == c);
                        }
                    }
                }
                assert(mask@ =~= listed(after));
            }
        }
        assert(cpus@.take(i as int) =~= cpus@);
        mask
    }

    /// Whether a processor is in the set.
    pub fn holds(&self, cpu: usize) -> (b: bool)
        requires
            cpu < 64,
        ensures
            b == self@.contains(cpu as int),
    {
        get_bit(self, cpu)
    }
}

/// The processors among the first `n` that an interrupt goes to, in order.
pub open spec fn targeted(targets: Set<int>, vcpus: Seq<usize>, n: nat) -> Seq<usize>
    decreases n,
{
    if n == 0 {
        Seq::empty()
    } else if targets.contains(vcpus[n - 1] as int) {
        targeted(targets, vcpus, (n - 1) as nat).push(vcpus[n - 1])
    } else {
        targeted(targets, vcpus, (n - 1) as nat)
    }
}

/// The processors of the machine that an interrupt goes to, in order.
pub fn interrupt_targets(targets: &VcpuMask, vcpus: &[usize]) -> (out: Vec<usize>)
    requires
        forall|i: int| 0 <= i < vcpus@.len() ==> #[trigger] vcpus@[i] < 64,
    ensures
        out@ == targeted(targets@, vcpus@, vcpus@.len()),
{
    let mut out: Vec<usize> = Vec::new();
    let mut i: usize = 0;
    while i < vcpus.len()
        invariant
            i <= vcpus@.len(),
            forall|k: int| 0 <= k < vcpus@.len() ==> #[trigger] vcpus@[k] < 64,
            out@ == targeted(targets@, vcpus@, i as nat),
        decreases vcpus@.len() - i,
    {
        if targets.holds(vcpus[i]) {
            out.push(vcpus[i]);
        }
        i = i + 1;
    }
    out
}

/// An interrupt goes to a processor exactly where the machine has it and the mask names it.
pub proof fn targets_are_named_processors(
    targets: Set<int>,
    vcpus: Seq<usize>,
    n: nat,
    cpu: usize,
)
    requires
        n <= vcpus.len(),
    ensures
        targeted(targets, vcpus, n).contains(cpu) <==> targets.contains(cpu as int) && vcpus.take(
            n as int,
        ).contains(cpu),
    decreases n,
{
    if n > 0 {
        targets_are_named_processors(targets, vcpus, (n - 1) as nat, cpu);
        let shorter = targeted(targets, vcpus, (n - 1) as nat);
        let longer = targeted(targets, vcpus, n);
        let before = vcpus.take(n - 1);
        let after = vcpus.take(n as int);
        assert(after =~= before.push(vcpus[n - 1]));
        if before.contains(cpu) {
            let k = before.index_of(cpu);
            assert(after[k] == cpu);
        }
        if after.contains(cpu) && cpu != vcpus[n - 1] {
            let k = after.index_of(cpu);
            assert(before[k] == cpu);
        }
        if cpu == vcpus[n - 1] {
            assert(after[n - 1] == cpu);
        }
        if longer.len() > shorter.len() {
            assert(longer[longer.len() - 1] == vcpus[n - 1]);
            if shorter.contains(cpu) {
                let k = shorter.index_of(cpu);
                assert(longer[k] == cpu);
            }
            if longer.contains(cpu) && cpu != vcpus[n - 1] {
                let k = longer.index_of(cpu);
                assert(shorter[k] == cpu);
            }
        }
    }
}

/// The processors that an interrupt goes to are those of the machine that the mask names, in the
/// order of the machine and as often as the machine has them.
pub proof fn targets_keep_their_order(targets: Set<int>, vcpus: Seq<usize>, n: nat)
    requires
        n <= vcpus.len(),
    ensures
        targeted(targets, vcpus, n) == vcpus.take(n as int).filter(
            |v: usize| targets.contains(v as int),
        ),
    decreases n,
{
    let named = |v: usize| targets.contains(v as int);
    reveal(Seq::filter);
    if n == 0 {
        assert(vcpus.take(0).filter(named) =~= Seq::<usize>::empty());
    } else {
        targets_keep_their_order(targets, vcpus, (n - 1) as nat);
        assert(vcpus.take(n as int).drop_last() =~= vcpus.take(n - 1));
        assert(vcpus.take(n as int).last() == vcpus[n - 1]);
    }
}

/// A mask that is made of a list names exactly the processors of the list.
pub proof fn mask_names_the_listed(cpus: Seq<usize>, c: int)
    ensures
        listed(cpus).contains(c) <==> exists|i: int| 0 <= i < cpus.len() && #[trigger] cpus[i] == c,
{
}

} // verus!
