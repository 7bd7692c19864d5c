use vstd::prelude::*;

use crate::bridge::{
    join_keys, joined_keys, json_key_array, parse_funded_response, ResponseParseError,
    WalletCommand,
};
use crate::keystore::KeyStore;

verus! {

/// The states of the sweep cycle, in the order the bootstrap passes through
/// them; `Polling` repeats forever.
#[derive(Clone, Copy, PartialEq, Eq, Structural, Debug)]
pub enum CycleState {
    Uninitialized,
    DaemonStarted,
    WalletRestored,
    WalletLoaded,
    Polling,
}

/// One step the caller must perform for the cycle.
#[derive(Debug)]
pub enum BootstrapAction {
    /// Delete the wallet file if it exists; its absence is not an error.
    RemoveWalletFile,
    /// Run the command against the engine and wait for it to finish.
    Run(WalletCommand),
}

/// Why a polling iteration must abort the run.
#[derive(Debug)]
pub enum CycleError {
    /// The engine reported a funded key that the store never created:
    /// sweeping it would send funds to an unknown destination.
    UnknownKey(String),
    /// The engine's funded-keys output was not a JSON array of strings.
    ResponseParse(ResponseParseError),
}

/// The bootstrap-then-poll state machine. It decides every transition and
/// every command; the caller performs the external work between steps and
/// never constructs command text itself.
pub struct SweepCycle {
    pub state: CycleState,
    pub store: KeyStore,
}

impl SweepCycle {
    pub fn new(store: KeyStore) -> (c: SweepCycle)
        ensures
            c.state is Uninitialized,
            c.store == store,
    {
        SweepCycle { state: CycleState::Uninitialized, store }
    }

    /// `Uninitialized -> DaemonStarted`: first delete any pre-existing
    /// wallet file, then start the engine's daemon.
    pub fn begin(&mut self) -> (acts: Vec<BootstrapAction>)
        requires
            old(self).state is Uninitialized,
        ensures
            final(self).state is DaemonStarted,
            final(self).store == old(self).store,
            acts@.len() == 2,
            acts@[0] is RemoveWalletFile,
            acts@[1] matches BootstrapAction::Run(c) && c is StartDaemon,
    {
        self.state = CycleState::DaemonStarted;
        let mut acts: Vec<BootstrapAction> = Vec::new();
        acts.push(BootstrapAction::RemoveWalletFile);
        acts.push(BootstrapAction::Run(WalletCommand::StartDaemon));
        acts
    }

    /// `DaemonStarted -> WalletRestored`: recreate the wallet from every
    /// private key, joined into one bulk restore request.
    pub fn restore_wallet(&mut self) -> (c: WalletCommand)
        requires
            old(self).state is DaemonStarted,
        ensures
            final(self).state is WalletRestored,
            final(self).store == old(self).store,
            c matches WalletCommand::Restore(j) && j@ == joined_keys(old(self).store.keys()),
    {
        self.state = CycleState::WalletRestored;
        let keys = self.store.all_private_keys();
        WalletCommand::Restore(join_keys(&keys))
    }

    /// `WalletRestored -> WalletLoaded`: make the restored wallet active.
    pub fn load_wallet(&mut self) -> (c: WalletCommand)
        requires
            old(self).state is WalletRestored,
        ensures
            final(self).state is WalletLoaded,
            final(self).store == old(self).store,
            c is LoadWallet,
    {
        self.state = CycleState::WalletLoaded;
        WalletCommand::LoadWallet
    }

    /// `WalletLoaded -> Polling`: enter the repeating step; the cycle never
    /// leaves `Polling`.
    pub fn begin_polling(&mut self)
        requires
            old(self).state is WalletLoaded,
        ensures
            final(self).state is Polling,
            final(self).store == old(self).store,
    {
        self.state = CycleState::Polling;
    }

    /// The query that opens every polling iteration.
    pub fn poll_request(&self) -> (c: WalletCommand)
        requires
            self.state is Polling,
        ensures
            c is ListFundedKeys,
    {
        WalletCommand::ListFundedKeys
    }

    /// The sweep commands for the funded keys, one per key in the order the
    /// engine reported them, each to the key's own target. `Err` exactly
    /// when some funded key is unknown to the store; then the first unknown
    /// key is named and nothing may be swept.
    pub fn plan_sweeps(&self, funded: &Vec<String>) -> (r: Result<Vec<WalletCommand>, CycleError>)
        ensures
            r is Ok <==> (forall|i: int|
                0 <= i < funded.deep_view().len() ==> self.store.targets().contains_key(
                    #[trigger] funded.deep_view()[i],
                )),
            r matches Ok(cs) ==> cs@.len() == funded.deep_view().len() && (forall|i: int|
                0 <= i < cs@.len() ==> (#[trigger] cs@[i] matches WalletCommand::Sweep(k, t)
                    && k@ == funded.deep_view()[i] && t@ == self.store.targets()[funded.deep_view()[i]])),
            r matches Err(e) ==> e matches CycleError::UnknownKey(k) && (exists|i: int|
                0 <= i < funded.deep_view().len() && k@ == #[trigger] funded.deep_view()[i]
                    && !self.store.targets().contains_key(funded.deep_view()[i]) && (forall|j: int|
                    0 <= j < i ==> self.store.targets().contains_key(
                        #[trigger] funded.deep_view()[j],
                    ))),
    {
        let mut cs: Vec<WalletCommand> = Vec::new();
        let mut i: usize = 0;
        while i < funded.len()
            invariant
                i <= funded@.len(),
                cs@.len() == i,
                forall|j: int| 0 <= j < i ==> self.store.targets().contains_key(
                    #[trigger] funded.deep_view()[j],
                ),
                forall|j: int| 0 <= j < i ==> (#[trigger] cs@[j] matches WalletCommand::Sweep(k, t)
                    && k@ == funded.deep_view()[j] && t@ == self.store.targets()[funded.deep_view()[j]]),
            decreases funded@.len() - i,
        {
            let key = &funded[i];
            proof {
                assert(funded.deep_view()[i as int] == key@);
            }
            match self.store.lookup(key.as_str()) {
                Ok(target) => {
                    cs.push(WalletCommand::Sweep(key.clone(), target));
                    proof {
                        assert(cs@[i as int] matches WalletCommand::Sweep(k, t) && k@
                            == funded.deep_view()[i as int] && t@ == self.store.targets()[
                            funded.deep_view()[i as int]
                        ]);
                    }
                },
                Err(e) => {
                    proof {
                        let dv = funded.deep_view();
                        assert(!self.store.targets().contains_key(dv[i as int]));
                        assert(0 <= i < dv.len() && e.key@ == dv[i as int]
                            && !self.store.targets().contains_key(dv[i as int]) && (forall|j: int|
                            0 <= j < i ==> self.store.targets().contains_key(#[trigger] dv[j])));
                    }
                    return Err(CycleError::UnknownKey(e.key));
                },
            }
            i += 1;
        }
        Ok(cs)
    }

    /// The Polling step's whole decision on the engine's response: the
    /// ordered sweep plan, or the error that aborts the run. With an empty
    /// funded list the plan is empty and the cycle goes straight to its
    /// delay.
    pub fn poll_response(&self, output: &str) -> (r: Result<Vec<WalletCommand>, CycleError>)
        requires
            self.state is Polling,
        ensures
            json_key_array(output@) is None ==> (r matches Err(e) && e is ResponseParse),
            json_key_array(output@) matches Some(funded) ==> {
                &&& r is Ok <==> (forall|i: int|
                    0 <= i < funded.len() ==> self.store.targets().contains_key(
                        #[trigger] funded[i],
                    ))
                &&& r matches Ok(cs) ==> cs@.len() == funded.len() && (forall|i: int|
                    0 <= i < cs@.len() ==> (#[trigger] cs@[i] matches WalletCommand::Sweep(k, t)
                        && k@ == funded[i] && t@ == self.store.targets()[funded[i]]))
                &&& r matches Err(e) ==> e matches CycleError::UnknownKey(k) && (exists|i: int|
                    0 <= i < funded.len() && k@ == #[trigger] funded[i]
                        && !self.store.targets().contains_key(funded[i]) && (forall|j: int|
                        0 <= j < i ==> self.store.targets().contains_key(#[trigger] funded[j])))
            },
    {
        match parse_funded_response(output) {
            Ok(funded) => {
                proof {
                    assert(json_key_array(output@)->0 == funded.deep_view());
                }
                let r = self.plan_sweeps(&funded);
                proof {
                    let f = json_key_array(output@)->0;
                    let dv = funded.deep_view();
                    assert(forall|i: int| 0 <= i < f.len() ==> #[trigger] f[i] == dv[i]);
                }
                r
            },
            Err(e) => Err(CycleError::ResponseParse(e)),
        }
    }
}

// ---------------------------------------------------------------------------
// Idempotence of the bootstrap.
// ---------------------------------------------------------------------------

/// The engine's wallet file as the bootstrap sees it: absent, or present
/// with the joined key text it was last restored from.
pub type WalletFileModel = Option<Seq<char>>;

/// Transition 1 first deletes the wallet file; absence is not an error.
pub open spec fn wallet_after_remove(w: WalletFileModel) -> WalletFileModel {
    None
}

/// The engine's restore creates the wallet only when none exists: a
/// pre-existing wallet file is left as it stands.
pub open spec fn wallet_after_restore(w: WalletFileModel, joined: Seq<char>) -> WalletFileModel {
    match w {
        None => Some(joined),
        Some(c) => Some(c),
    }
}

/// The wallet file after the delete-then-restore bootstrap.
pub open spec fn wallet_after_bootstrap(w: WalletFileModel, joined: Seq<char>) -> WalletFileModel {
    wallet_after_restore(wallet_after_remove(w), joined)
}

/// Restarting is idempotent: the delete-then-restore bootstrap leads to the
/// same restored wallet whatever wallet file was present before it ran, and
/// running the whole sequence twice in a row changes nothing further.
pub proof fn lemma_bootstrap_idempotent(w1: WalletFileModel, w2: WalletFileModel, joined: Seq<char>)
    ensures
        wallet_after_bootstrap(w1, joined) == wallet_after_bootstrap(w2, joined),
        wallet_after_bootstrap(wallet_after_bootstrap(w1, joined), joined)
            == wallet_after_bootstrap(w1, joined),
{
}

} // verus!
