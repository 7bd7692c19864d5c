use sweeper::bridge::{join_keys, parse_funded_response, WalletCommand};

#[test]
fn start_daemon_command_text() {
    let c = WalletCommand::StartDaemon;
    assert_eq!(c.shell_line("electrum"), "electrum daemon -d");
}

#[test]
fn restore_command_text() {
    let c = WalletCommand::Restore("k1 k2".to_string());
    assert_eq!(c.shell_line("electrum"), "electrum -w sweeper_wallet restore \"k1 k2\"");
}

#[test]
fn load_wallet_command_text() {
    let c = WalletCommand::LoadWallet;
    assert_eq!(c.shell_line("electrum"), "electrum -w sweeper_wallet load_wallet");
}

#[test]
fn list_funded_keys_command_text() {
    let c = WalletCommand::ListFundedKeys;
    assert_eq!(
        c.shell_line("/usr/bin/electrum"),
        "/usr/bin/electrum -w sweeper_wallet listaddresses --funded | \
         /usr/bin/electrum -w sweeper_wallet getprivatekeys -"
    );
}

#[test]
fn sweep_command_text() {
    let c = WalletCommand::Sweep("KEY".to_string(), "TARGET".to_string());
    assert_eq!(
        c.shell_line("electrum"),
        "electrum -w sweeper_wallet sweep KEY TARGET | electrum -w sweeper_wallet broadcast -"
    );
}

#[test]
fn join_keys_with_spaces() {
    assert_eq!(join_keys(&vec![]), "");
    assert_eq!(join_keys(&vec!["k".to_string()]), "k");
    assert_eq!(
        join_keys(&vec!["a".to_string(), "b".to_string(), "c".to_string()]),
        "a b c"
    );
}

#[test]
fn funded_response_empty_array() {
    let keys = parse_funded_response("[]").unwrap();
    assert_eq!(keys, Vec::<String>::new());
}

#[test]
fn funded_response_keys_in_order() {
    let keys = parse_funded_response("[\"abc123\", \"def456\"]").unwrap();
    assert_eq!(keys, vec!["abc123".to_string(), "def456".to_string()]);
}

#[test]
fn funded_response_rejects_non_json() {
    assert!(parse_funded_response("no funds here").is_err());
}

#[test]
fn funded_response_rejects_wrong_shape() {
    assert!(parse_funded_response("[1, 2]").is_err());
    assert!(parse_funded_response("{\"a\": \"b\"}").is_err());
    assert!(parse_funded_response("\"alone\"").is_err());
}
