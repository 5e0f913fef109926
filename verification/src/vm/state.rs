//! The life cycle of a virtual machine: created, booting, running, paused, stopped.

use vstd::prelude::*;

use crate::text;

verus! {

#[derive(Debug, Clone, Copy, PartialEq, Eq, Structural)]
pub enum VmState {
    Created,
    Booting,
    Running,
    Paused,
    Stopped,
}

impl VmState {
    /// The state's name.
    pub open spec fn name(self) -> Seq<char> {
        match self {
            VmState::Created => "Created"@,
            VmState::Booting => "Booting"@,
            VmState::Running => "Running"@,
            VmState::Paused => "Paused"@,
            VmState::Stopped => "Stopped"@,
        }
    }

    /// Whether a machine may go from this state to `next`.
    pub open spec fn leads_to(self, next: VmState) -> bool {
        match self {
            VmState::Created => next == VmState::Booting,
            VmState::Booting => next == VmState::Running || next == VmState::Stopped,
            VmState::Running => next == VmState::Paused || next == VmState::Stopped,
            VmState::Paused => next == VmState::Running || next == VmState::Stopped,
            VmState::Stopped => false,
        }
    }

    /// The state's name.
    pub fn as_str(&self) -> (r: &'static str)
        ensures
            r@ == self.name(),
    {
        match self {
            VmState::Created => "Created",
            VmState::Booting => "Booting",
            VmState::Running => "Running",
            VmState::Paused => "Paused",
            VmState::Stopped => "Stopped",
        }
    }

    /// Whether a machine may go from this state to `next`.
    pub fn can_transition_to(self, next: VmState) -> (r: bool)
        ensures
            r == self.leads_to(next),
    {
        match (self, next) {
            (VmState::Created, VmState::Booting) => true,
            (VmState::Booting, VmState::Running) => true,
            (VmState::Booting, VmState::Stopped) => true,
            (VmState::Running, VmState::Paused) => true,
            (VmState::Running, VmState::Stopped) => true,
            (VmState::Paused, VmState::Running) => true,
            (VmState::Paused, VmState::Stopped) => true,
            _ => false,
        }
    }
}

/// Whether a machine that is in the first state of a history went through it by legal steps.
pub open spec fn legal_history(h: Seq<VmState>) -> bool {
    forall|i: int, j: int|
        0 <= i && j == i + 1 && j < h.len() ==> (#[trigger] h[i]).leads_to(#[trigger] h[j])
}

/// A machine that stopped stays stopped: nothing follows it in a history.
pub proof fn stopped_is_final(h: Seq<VmState>, i: int)
    requires
        legal_history(h),
        0 <= i < h.len(),
        h[i] == VmState::Stopped,
    ensures
        i == h.len() - 1,
{
    if i + 1 < h.len() {
        assert(h[i].leads_to(h[i + 1]));
    }
}

/// A machine that was created runs only after it booted, and boots only once.
pub proof fn boots_before_running(h: Seq<VmState>, i: int)
    requires
        legal_history(h),
        0 <= i < h.len(),
        h[0] == VmState::Created,
    ensures
        h[i] == VmState::Created <==> i == 0,
        h[i] == VmState::Booting <==> i == 1,
    decreases i,
{
    if i > 0 {
        boots_before_running(h, i - 1);
        assert(h[i - 1].leads_to(h[i]));
    }
}

/// The steps of a machine's life, and no others: it boots once it was created, runs once it
/// booted, is paused while it runs and runs on, and can be stopped at any time between booting
/// and having stopped.
pub proof fn life_cycle(a: VmState, b: VmState, r: bool, name: &'static str)
    requires
        call_ensures(VmState::can_transition_to, (a, b), r),
        call_ensures(VmState::as_str, (&a,), name),
    ensures
        r == a.leads_to(b),
        b == VmState::Created ==> !r,
        b == VmState::Booting ==> (r <==> a == VmState::Created),
        b == VmState::Running ==> (r <==> a == VmState::Booting || a == VmState::Paused),
        b == VmState::Paused ==> (r <==> a == VmState::Running),
        b == VmState::Stopped ==> (r <==> a != VmState::Created && a != VmState::Stopped),
        a == VmState::Created ==> name@ == "Created"@,
        a == VmState::Booting ==> name@ == "Booting"@,
        a == VmState::Running ==> name@ == "Running"@,
        a == VmState::Paused ==> name@ == "Paused"@,
        a == VmState::Stopped ==> name@ == "Stopped"@,
{
}

/// A step that is not legal.
#[derive(Debug, Clone, Copy)]
pub struct IllegalTransition {
    pub from: VmState,
    pub to: VmState,
}

impl IllegalTransition {
    /// The error in words.
    pub open spec fn words(self) -> Seq<char> {
        "illegal VM state transition: "@ + self.from.name() + " -> "@ + self.to.name()
    }

    /// The error in words.
    pub fn message(&self) -> (r: String)
        ensures
            r@ == self.words(),
    {
        let a = text::join3("illegal VM state transition: ", self.from.as_str(), " -> ");
        text::join2(a.as_str(), self.to.as_str())
    }
}

} // verus!
