//! The order in which firewall backends are tried.

use ip_ban::firewall::{FirewallBackend, FirewallStep};

fn run(answers: &[bool]) -> FirewallStep {
    answers
        .iter()
        .fold(FirewallStep::first(), |step, ok| step.next(*ok))
}

#[test]
fn nftables_comes_first_and_iptables_is_the_fallback() {
    assert_eq!(run(&[]), FirewallStep::Open(FirewallBackend::NfTables));
    assert_eq!(
        run(&[true, true]),
        FirewallStep::Apply(FirewallBackend::NfTables)
    );
    assert_eq!(run(&[true, true, true]), FirewallStep::Done);
    assert_eq!(
        run(&[false, true, true]),
        FirewallStep::Apply(FirewallBackend::Iptables)
    );
    assert_eq!(run(&[false, true, true, true]), FirewallStep::Done);
}

#[test]
fn other_failures_are_final() {
    assert_eq!(run(&[true, false]), FirewallStep::Failed);
    assert_eq!(run(&[true, true, false]), FirewallStep::Failed);
    assert_eq!(run(&[false, false]), FirewallStep::Failed);
    assert_eq!(run(&[false, false, true]), FirewallStep::Failed);
    assert_eq!(run(&[true, true, true, false]), FirewallStep::Done);
}
