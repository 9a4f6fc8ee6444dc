//! Which firewall a block or unblock goes to.

use vstd::prelude::*;

verus! {

#[derive(Debug, Clone, Copy, PartialEq, Eq, Structural)]
pub enum FirewallBackend {
    NfTables,
    Iptables,
}

/// One thing to try on the way to a change at the firewall.
#[derive(Debug, Clone, Copy, PartialEq, Eq, Structural)]
pub enum FirewallStep {
    /// Open the backend.
    Open(FirewallBackend),
    /// Initialize the open backend.
    Initialize(FirewallBackend),
    /// Make the change through the initialized backend.
    Apply(FirewallBackend),
    /// The change is made.
    Done,
    /// The change is not made; the last thing tried has failed.
    Failed,
}

impl FirewallStep {
    /// The step that follows, given whether this one succeeded. The second backend is tried only
    /// where the first cannot be opened; every other failure is final.
    pub open spec fn next_spec(self, succeeded: bool) -> FirewallStep {
        match (self, succeeded) {
            (FirewallStep::Open(backend), true) => FirewallStep::Initialize(backend),
            (FirewallStep::Initialize(backend), true) => FirewallStep::Apply(backend),
            (FirewallStep::Apply(_), true) => FirewallStep::Done,
            (FirewallStep::Open(FirewallBackend::NfTables), false) => FirewallStep::Open(
                FirewallBackend::Iptables,
            ),
            (FirewallStep::Done, _) => FirewallStep::Done,
            _ => FirewallStep::Failed,
        }
    }

    /// The first thing to try.
    pub fn first() -> (r: FirewallStep)
        ensures
            r == FirewallStep::Open(FirewallBackend::NfTables),
    {
        FirewallStep::Open(FirewallBackend::NfTables)
    }

    /// The step that follows, given whether this one succeeded.
    pub fn next(self, succeeded: bool) -> (r: FirewallStep)
        ensures
            r == self.next_spec(succeeded),
    {
        match self {
            FirewallStep::Open(backend) => {
                if succeeded {
                    FirewallStep::Initialize(backend)
                } else {
                    match backend {
                        FirewallBackend::NfTables => FirewallStep::Open(FirewallBackend::Iptables),
                        FirewallBackend::Iptables => FirewallStep::Failed,
                    }
                }
            },
            FirewallStep::Initialize(backend) => {
                if succeeded {
                    FirewallStep::Apply(backend)
                } else {
                    FirewallStep::Failed
                }
            },
            FirewallStep::Apply(_) => {
                if succeeded {
                    FirewallStep::Done
                } else {
                    FirewallStep::Failed
                }
            },
            FirewallStep::Done => FirewallStep::Done,
            FirewallStep::Failed => FirewallStep::Failed,
        }
    }
}

/// How the surroundings answer what is tried: which backends open, and for the one that does,
/// whether it initializes and takes the change.
pub struct FirewallAnswers {
    pub nftables_opens: bool,
    pub iptables_opens: bool,
    pub initializes: bool,
    pub applies: bool,
}

impl FirewallAnswers {
    /// The answer to one step.
    pub open spec fn to(self, step: FirewallStep) -> bool {
        match step {
            FirewallStep::Open(FirewallBackend::NfTables) => self.nftables_opens,
            FirewallStep::Open(FirewallBackend::Iptables) => self.iptables_opens,
            FirewallStep::Initialize(_) => self.initializes,
            FirewallStep::Apply(_) => self.applies,
            FirewallStep::Done => true,
            FirewallStep::Failed => false,
        }
    }

    /// The step that is reached after `n` answers.
    pub open spec fn after(self, n: nat) -> FirewallStep
        decreases n,
    {
        if n == 0 {
            FirewallStep::Open(FirewallBackend::NfTables)
        } else {
            let step = self.after((n - 1) as nat);
            step.next_spec(self.to(step))
        }
    }
}

/// A change is settled after four answers at most. It is made exactly where some backend opens,
/// initializes and takes it, and it goes to nftables wherever that opens.
pub proof fn law_change_is_settled(answers: FirewallAnswers)
    ensures
        ({
            let opens = answers.nftables_opens || answers.iptables_opens;
            let made = opens && answers.initializes && answers.applies;
            &&& answers.after(4) == if made {
                FirewallStep::Done
            } else {
                FirewallStep::Failed
            }
            &&& answers.nftables_opens ==> answers.after(1) == FirewallStep::Initialize(
                FirewallBackend::NfTables,
            )
        }),
{
    reveal_with_fuel(FirewallAnswers::after, 5);
}

/// A change is made through a backend only after that backend was opened and initialized.
pub proof fn law_change_needs_an_initialized_backend(
    answers: FirewallAnswers,
    n: nat,
    backend: FirewallBackend,
)
    requires
        answers.after(n) == FirewallStep::Apply(backend),
    ensures
        n >= 2,
        answers.after((n - 1) as nat) == FirewallStep::Initialize(backend),
        answers.after((n - 2) as nat) == FirewallStep::Open(backend),
        answers.to(FirewallStep::Open(backend)),
        answers.initializes,
{
    reveal_with_fuel(FirewallAnswers::after, 3);
}

/// Each step follows from one other: iptables is tried exactly where nftables cannot be opened, a
/// backend is initialized once it is open and takes the change once it is initialized, the change
/// is made once a backend has taken it and stays made, and everything else has failed.
pub proof fn law_each_step_has_its_cause(
    step: FirewallStep,
    succeeded: bool,
    next: FirewallStep,
    backend: FirewallBackend,
)
    requires
        call_ensures(FirewallStep::next, (step, succeeded), next),
    ensures
        next == step.next_spec(succeeded),
        next != FirewallStep::Open(FirewallBackend::NfTables),
        next == FirewallStep::Open(FirewallBackend::Iptables) <==> step == FirewallStep::Open(
            FirewallBackend::NfTables,
        ) && !succeeded,
        next == FirewallStep::Initialize(backend) <==> step == FirewallStep::Open(backend)
            && succeeded,
        next == FirewallStep::Apply(backend) <==> step == FirewallStep::Initialize(backend)
            && succeeded,
        next is Done <==> step is Done || step is Apply && succeeded,
        next is Failed <==> step is Failed || !succeeded && (step is Initialize || step is Apply
            || step == FirewallStep::Open(FirewallBackend::Iptables)),
{
}

/// The first backend to be tried is nftables.
pub proof fn law_nftables_comes_first(step: FirewallStep)
    requires
        call_ensures(FirewallStep::first, (), step),
    ensures
        step == FirewallStep::Open(FirewallBackend::NfTables),
{
}

} // verus!
