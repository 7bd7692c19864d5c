use vstd::prelude::*;

verus! {

// ---------------------------------------------------------------------------
// The wallet engine's command-line protocol.
//
// Every operation is one composed shell line against the fixed wallet name
// `sweeper_wallet`: the engine's binary at `path`, piped into a second
// invocation where the protocol asks for it. Nothing outside this module
// builds command text.
// ---------------------------------------------------------------------------

/// The closed set of operations issued to the external wallet engine.
#[derive(Debug)]
pub enum WalletCommand {
    /// Launch the engine's background daemon.
    StartDaemon,
    /// Recreate the working wallet from the joined key list in one call.
    Restore(String),
    /// Make the restored wallet active for the operations that follow.
    LoadWallet,
    /// Query which keys currently hold a balance.
    ListFundedKeys,
    /// Sweep one key's balance to its target and broadcast the transaction.
    Sweep(String, String),
}

pub open spec fn start_daemon_text(path: Seq<char>) -> Seq<char> {
    path + " daemon -d"@
}

pub open spec fn restore_text(path: Seq<char>, joined: Seq<char>) -> Seq<char> {
    path + " -w sweeper_wallet restore \""@ + joined + "\""@
}

pub open spec fn load_wallet_text(path: Seq<char>) -> Seq<char> {
    path + " -w sweeper_wallet load_wallet"@
}

pub open spec fn list_funded_text(path: Seq<char>) -> Seq<char> {
    path + " -w sweeper_wallet listaddresses --funded | "@ + path
        + " -w sweeper_wallet getprivatekeys -"@
}

pub open spec fn sweep_text(path: Seq<char>, key: Seq<char>, target: Seq<char>) -> Seq<char> {
    path + " -w sweeper_wallet sweep "@ + key + " "@ + target + " | "@ + path
        + " -w sweeper_wallet broadcast -"@
}

/// The exact shell line that a command stands for.
pub open spec fn command_text(c: WalletCommand, path: Seq<char>) -> Seq<char> {
    match c {
        WalletCommand::StartDaemon => start_daemon_text(path),
        WalletCommand::Restore(joined) => restore_text(path, joined@),
        WalletCommand::LoadWallet => load_wallet_text(path),
        WalletCommand::ListFundedKeys => list_funded_text(path),
        WalletCommand::Sweep(key, target) => sweep_text(path, key@, target@),
    }
}

impl WalletCommand {
    /// Renders the command as the one shell line handed to the engine.
    pub fn shell_line(&self, path: &str) -> (r: String)
        ensures
            r@ == command_text(*self, path@),
    {
        let mut s = path.to_owned();
        match self {
            WalletCommand::StartDaemon => {
                s.append(" daemon -d");
            },
            WalletCommand::Restore(joined) => {
                s.append(" -w sweeper_wallet restore \"");
                s.append(joined.as_str());
                s.append("\"");
            },
            WalletCommand::LoadWallet => {
                s.append(" -w sweeper_wallet load_wallet");
            },
            WalletCommand::ListFundedKeys => {
                s.append(" -w sweeper_wallet listaddresses --funded | ");
                s.append(path);
                s.append(" -w sweeper_wallet getprivatekeys -");
            },
            WalletCommand::Sweep(key, target) => {
                s.append(" -w sweeper_wallet sweep ");
                s.append(key.as_str());
                s.append(" ");
                s.append(target.as_str());
                s.append(" | ");
                s.append(path);
                s.append(" -w sweeper_wallet broadcast -");
            },
        }
        s
    }
}

/// The keys joined with single spaces, in order: the payload of the bulk
/// restore request.
pub open spec fn joined_keys(keys: Seq<Seq<char>>) -> Seq<char>
    decreases keys.len(),
{
    if keys.len() == 0 {
        Seq::empty()
    } else if keys.len() == 1 {
        keys[0]
    } else {
        joined_keys(keys.drop_last()) + " "@ + keys.last()
    }
}

/// Joins the keys with single spaces, in order.
pub fn join_keys(keys: &Vec<String>) -> (r: String)
    ensures
        r@ == joined_keys(keys.deep_view()),
{
    let mut s = String::new();
    let mut i: usize = 0;
    while i < keys.len()
        invariant
            i <= keys@.len(),
            s@ == joined_keys(keys.deep_view().subrange(0, i as int)),
        decreases keys@.len() - i,
    {
        if i > 0 {
            s.append(" ");
        }
        s.append(keys[i].as_str());
        proof {
            let dv = keys.deep_view();
            assert(dv.subrange(0, i as int + 1).drop_last() =~~= dv.subrange(0, i as int));
            assert(dv.subrange(0, i as int + 1).last() == dv[i as int]);
            if i == 0 {
                assert(s@ =~= joined_keys(dv.subrange(0, 1)));
            }
        }
        i += 1;
    }
    proof {
        assert(keys.deep_view().subrange(0, keys@.len() as int) =~~= keys.deep_view());
    }
    s
}

// ---------------------------------------------------------------------------
// The funded-keys response.
// ---------------------------------------------------------------------------

/// Error of [`parse_funded_response`]: the engine's output was not a JSON
/// array of strings.
#[derive(Debug)]
pub struct ResponseParseError {}

/// What `serde_json` reads a given text as, when the text is a JSON array
/// of strings: the parse is a function of the text alone.
pub uninterp spec fn json_key_array(s: Seq<char>) -> Option<Seq<Seq<char>>>;

#[verifier::external_type_specification]
#[verifier::external_body]
pub struct ExSerdeJsonError(serde_json::Error);

/// Relies on `serde_json::from_str::<Vec<String>>`: deserializes the text
/// as a JSON array of strings, deciding success and contents from the text
/// alone.
#[verifier::external_body]
fn parse_string_array(s: &str) -> (r: Result<Vec<String>, serde_json::Error>)
    ensures
        r is Ok <==> json_key_array(s@) is Some,
        r matches Ok(v) ==> Some(v.deep_view()) == json_key_array(s@),
{
    serde_json::from_str(s)
}

/// Reads the engine's `list_funded_keys` output: the funded private keys in
/// the order the engine reported them, or `ResponseParseError` exactly when
/// the output is not a JSON array of strings.
pub fn parse_funded_response(s: &str) -> (r: Result<Vec<String>, ResponseParseError>)
    ensures
        r is Ok <==> json_key_array(s@) is Some,
        r matches Ok(v) ==> Some(v.deep_view()) == json_key_array(s@),
{
    match parse_string_array(s) {
        Ok(v) => Ok(v),
        Err(_) => Err(ResponseParseError {}),
    }
}

} // verus!
