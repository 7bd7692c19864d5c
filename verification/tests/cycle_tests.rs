use sweeper::bridge::WalletCommand;
use sweeper::cycle::{BootstrapAction, CycleError, CycleState, SweepCycle};
use sweeper::keystore::KeyStore;
use sweeper::schedule::Scheduler;

fn cycle_from(content: &str) -> SweepCycle {
    SweepCycle::new(KeyStore::load(content).unwrap())
}

/// The command texts a full bootstrap emits, in order.
fn bootstrap_texts(cycle: &mut SweepCycle, path: &str) -> Vec<String> {
    let mut texts = Vec::new();
    for act in cycle.begin() {
        match act {
            BootstrapAction::RemoveWalletFile => texts.push("<remove wallet file>".to_string()),
            BootstrapAction::Run(c) => texts.push(c.shell_line(path)),
        }
    }
    texts.push(cycle.restore_wallet().shell_line(path));
    texts.push(cycle.load_wallet().shell_line(path));
    cycle.begin_polling();
    texts
}

#[test]
fn bootstrap_walks_the_states_in_order() {
    let mut cycle = cycle_from("a|b");
    assert_eq!(cycle.state, CycleState::Uninitialized);
    let acts = cycle.begin();
    assert_eq!(cycle.state, CycleState::DaemonStarted);
    assert_eq!(acts.len(), 2);
    assert!(matches!(acts[0], BootstrapAction::RemoveWalletFile));
    assert!(matches!(acts[1], BootstrapAction::Run(WalletCommand::StartDaemon)));
    let restore = cycle.restore_wallet();
    assert_eq!(cycle.state, CycleState::WalletRestored);
    match restore {
        WalletCommand::Restore(joined) => assert_eq!(joined, "a"),
        _ => panic!("expected a restore command"),
    }
    let load = cycle.load_wallet();
    assert_eq!(cycle.state, CycleState::WalletLoaded);
    assert!(matches!(load, WalletCommand::LoadWallet));
    cycle.begin_polling();
    assert_eq!(cycle.state, CycleState::Polling);
    assert!(matches!(cycle.poll_request(), WalletCommand::ListFundedKeys));
}

#[test]
fn restore_joins_every_key_in_file_order() {
    let mut cycle = cycle_from("k1|t1\nk2|t2\nk3|t3");
    cycle.begin();
    match cycle.restore_wallet() {
        WalletCommand::Restore(joined) => assert_eq!(joined, "k1 k2 k3"),
        _ => panic!("expected a restore command"),
    }
}

#[test]
fn bootstrap_twice_emits_the_same_commands() {
    let mut first = cycle_from("k1|t1\nk2|t2");
    let mut second = cycle_from("k1|t1\nk2|t2");
    let a = bootstrap_texts(&mut first, "electrum");
    let b = bootstrap_texts(&mut second, "electrum");
    assert_eq!(a, b);
    assert_eq!(first.state, CycleState::Polling);
    assert_eq!(second.state, CycleState::Polling);
}

#[test]
fn empty_funded_list_plans_no_sweeps() {
    let mut cycle = cycle_from("abc123|T");
    bootstrap_texts(&mut cycle, "electrum");
    let plan = cycle.poll_response("[]").unwrap();
    assert_eq!(plan.len(), 0);
}

#[test]
fn one_funded_key_plans_exactly_one_sweep() {
    let mut cycle = cycle_from("abc123|T");
    bootstrap_texts(&mut cycle, "electrum");
    let plan = cycle.poll_response("[\"abc123\"]").unwrap();
    assert_eq!(plan.len(), 1);
    match &plan[0] {
        WalletCommand::Sweep(key, target) => {
            assert_eq!(key, "abc123");
            assert_eq!(target, "T");
        },
        _ => panic!("expected a sweep command"),
    }
}

#[test]
fn funded_keys_are_swept_in_reported_order() {
    let mut cycle = cycle_from("a|ta\nb|tb");
    bootstrap_texts(&mut cycle, "electrum");
    let plan = cycle.poll_response("[\"b\", \"a\"]").unwrap();
    let texts: Vec<String> = plan.iter().map(|c| c.shell_line("e")).collect();
    assert_eq!(
        texts,
        vec![
            "e -w sweeper_wallet sweep b tb | e -w sweeper_wallet broadcast -".to_string(),
            "e -w sweeper_wallet sweep a ta | e -w sweeper_wallet broadcast -".to_string(),
        ]
    );
}

#[test]
fn unknown_funded_key_aborts_with_no_plan() {
    let mut cycle = cycle_from("abc123|T");
    bootstrap_texts(&mut cycle, "electrum");
    match cycle.poll_response("[\"ghost\"]") {
        Err(CycleError::UnknownKey(key)) => assert_eq!(key, "ghost"),
        _ => panic!("expected an unknown-key error"),
    }
}

#[test]
fn malformed_response_aborts_rather_than_reading_no_funds() {
    let mut cycle = cycle_from("abc123|T");
    bootstrap_texts(&mut cycle, "electrum");
    assert!(matches!(cycle.poll_response("oops"), Err(CycleError::ResponseParse(_))));
}

#[test]
fn scheduler_pause_is_the_configured_delay() {
    assert_eq!(Scheduler::new(5).pause_secs(), 5);
    assert_eq!(Scheduler::new(0).pause_secs(), 0);
    assert_eq!(Scheduler::new(u64::MAX).pause_secs(), u64::MAX);
}
