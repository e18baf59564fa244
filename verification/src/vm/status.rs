//! Where a virtual machine is in its life.

use vstd::prelude::*;

verus! {

/// The state of a virtual machine.
#[derive(Debug, Clone, Copy, PartialEq, Eq, Structural)]
pub enum VMStatus {
    /// The machine is being created.
    Loading,
    /// The machine is loaded but not started.
    Loaded,
    /// The machine is running.
    Running,
    /// The machine is paused and can go on.
    Suspended,
    /// The machine is shutting down.
    Stopping,
    /// The machine has stopped.
    Stopped,
}

impl VMStatus {
    /// The name of the state, in lower case.
    pub open spec fn name(self) -> Seq<char> {
        match self {
            VMStatus::Loading => "loading"@,
            VMStatus::Loaded => "loaded"@,
            VMStatus::Running => "running"@,
            VMStatus::Suspended => "suspended"@,
            VMStatus::Stopping => "stopping"@,
            VMStatus::Stopped => "stopped"@,
        }
    }

    /// The name of the state behind its icon.
    pub open spec fn name_with_icon(self) -> Seq<char> {
        match self {
            VMStatus::Loading => "🔄 loading"@,
            VMStatus::Loaded => "📦 loaded"@,
            VMStatus::Running => "🚀 running"@,
            VMStatus::Suspended => "🛑 suspended"@,
            VMStatus::Stopping => "⏹️ stopping"@,
            VMStatus::Stopped => "💤 stopped"@,
        }
    }

    /// The name of the state, in lower case.
    pub fn as_str(&self) -> (s: &'static str)
        ensures
            s@ == self.name(),
    {
        match self {
            VMStatus::Loading => "loading",
            VMStatus::Loaded => "loaded",
            VMStatus::Running => "running",
            VMStatus::Suspended => "suspended",
            VMStatus::Stopping => "stopping",
            VMStatus::Stopped => "stopped",
        }
    }

    /// The name of the state behind its icon.
    pub fn as_str_with_icon(&self) -> (s: &'static str)
        ensures
            s@ == self.name_with_icon(),
    {
        match self {
            VMStatus::Loading => "🔄 loading",
            VMStatus::Loaded => "📦 loaded",
            VMStatus::Running => "🚀 running",
            VMStatus::Suspended => "🛑 suspended",
            VMStatus::Stopping => "⏹️ stopping",
            VMStatus::Stopped => "💤 stopped",
        }
    }
}

/// How interrupts reach the machine.
#[derive(Debug, Clone, Copy, PartialEq, Eq, Structural)]
pub enum VMInterruptMode {
    /// The machine takes no interrupts.
    NoIrq,
    /// Interrupts are emulated.
    Emulated,
    /// Interrupts are passed through.
    Passthrough,
}

/// The architecture that the machine runs on.
#[derive(Debug, Clone, Copy, PartialEq, Eq, Structural)]
pub enum Arch {
    X86_64,
    Aarch64,
    Riscv64,
    Loongarch64,
}

/// What the machine runs on.
#[derive(Clone, Copy, Debug, PartialEq, Eq, Structural)]
pub struct Target {
    /// The architecture of the processor.
    pub arch: Arch,
    /// The processor catches accesses to the local interrupt controller.
    pub vmx: bool,
}

/// The name of a state behind its icon is the icon, a space, and the name.
pub proof fn icon_stands_before_the_name(s: VMStatus)
    ensures
        ({
            let all = s.name_with_icon();
            let n = s.name().len() as int;
            &&& n + 2 <= all.len() <= n + 3
            &&& all[all.len() - n - 1] == ' '
            &&& all.skip(all.len() - n) == s.name()
        }),
{
    reveal_strlit("loading");
    reveal_strlit("loaded");
    reveal_strlit("running");
    reveal_strlit("suspended");
    reveal_strlit("stopping");
    reveal_strlit("stopped");
    reveal_strlit("🔄 loading");
    reveal_strlit("📦 loaded");
    reveal_strlit("🚀 running");
    reveal_strlit("🛑 suspended");
    reveal_strlit("⏹️ stopping");
    reveal_strlit("💤 stopped");
    let all = s.name_with_icon();
    let n = s.name().len() as int;
    assert(all.skip(all.len() - n) =~= s.name());
}

/// Different states have different names.
pub proof fn states_have_different_names(s: VMStatus, t: VMStatus)
    ensures
        s.name() == t.name() ==> s == t,
{
    reveal_strlit("loading");
    reveal_strlit("loaded");
    reveal_strlit("running");
    reveal_strlit("suspended");
    reveal_strlit("stopping");
    reveal_strlit("stopped");
    assert("loading"@[3] == 'd' && "stopped"@[3] == 'p' && "running"@[3] == 'n');
    assert("loading"@.len() == 7 && "loaded"@.len() == 6 && "running"@.len() == 7
        && "suspended"@.len() == 9 && "stopping"@.len() == 8 && "stopped"@.len() == 7);
}

} // verus!
