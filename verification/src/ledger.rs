//! The ledger engine: the single writer of the transaction store and the
//! delta log. It applies events one at a time in arrival order, gates
//! dispute-workflow transitions on lifecycle legality, appends one delta per
//! accepted transition, and folds the ordered log into per-client snapshots.

use vstd::prelude::*;
use std::collections::HashMap;
use crate::types::{
    Account, AccountModel, Transaction, TransactionState, TransactionType,
    amount_ok, delta_bounded, init_model, spec_delta, spec_merge, MAX_AMOUNT,
};

verus! {

broadcast use vstd::std_specs::hash::group_hash_axioms;

/// An engine-level failure. Domain-expected no-ops (unknown transaction id,
/// illegal transition, merge-time rejection) are absorbed silently and never
/// surface here; the only failure is submitting work to a stopped engine.
#[derive(Clone, Copy, Debug, PartialEq, Eq, Structural)]
pub enum LedgerError {
    EngineStopped,
}

/// A message for the engine: either one transaction to ingest, or the
/// cooperative stop signal.
#[derive(Clone, Copy, Debug)]
pub enum Signal {
    Kill,
    Transaction(Transaction),
}

/// Mathematical view of a `Ledger`: the authoritative transaction store, the
/// ordered delta log, and whether the engine has terminated.
pub struct LedgerModel {
    pub store: Map<u32, Transaction>,
    pub log: Seq<AccountModel>,
    pub stopped: bool,
}

/// The ledger engine.
pub struct Ledger {
    tx_db: HashMap<u32, Transaction>,
    log: Vec<Account>,
    stopped: bool,
}

impl View for Ledger {
    type V = LedgerModel;

    closed spec fn view(&self) -> LedgerModel {
        LedgerModel {
            store: self.tx_db@,
            log: self.log@.map_values(|a: Account| a@),
            stopped: self.stopped,
        }
    }
}

/// Whether a transaction may be recorded in the store: only deposits and
/// withdrawals are recorded, with a bounded amount.
pub open spec fn stored_ok(t: Transaction) -> bool {
    &&& t.transaction_type == TransactionType::Deposit
        || t.transaction_type == TransactionType::Withdrawal
    &&& amount_ok(t)
}

/// The lifecycle state a recorded transaction must currently occupy for a
/// dispute-workflow event to be accepted.
pub open spec fn source_state(ty: TransactionType) -> TransactionState {
    match ty {
        TransactionType::Dispute => TransactionState::New,
        _ => TransactionState::Dispute,
    }
}

/// The lifecycle state a dispute-workflow event moves a recorded
/// transaction into when accepted.
pub open spec fn target_state(ty: TransactionType) -> TransactionState {
    match ty {
        TransactionType::Dispute => TransactionState::Dispute,
        TransactionType::Resolve => TransactionState::Resolve,
        _ => TransactionState::Chargeback,
    }
}

/// One gated transition of the store: if the referenced transaction exists
/// and occupies `from`, move it to `to` and append the delta of its new
/// state; otherwise leave store and log untouched.
pub open spec fn spec_transition(
    store: Map<u32, Transaction>,
    log: Seq<AccountModel>,
    id: u32,
    from: TransactionState,
    to: TransactionState,
) -> (Map<u32, Transaction>, Seq<AccountModel>) {
    if store.contains_key(id) && store[id].state == from {
        let prev = store[id];
        let u = Transaction {
            transaction_type: prev.transaction_type,
            client: prev.client,
            tx: prev.tx,
            amount: prev.amount,
            state: to,
        };
        (store.insert(id, u), log.push(spec_delta(u)))
    } else {
        (store, log)
    }
}

/// The effect of ingesting one event on the store and the delta log.
/// Deposits and withdrawals are always recorded (a duplicate id silently
/// overwrites the earlier record) and always emit their delta;
/// dispute-workflow events attempt a gated transition.
pub open spec fn spec_step(
    store: Map<u32, Transaction>,
    log: Seq<AccountModel>,
    t: Transaction,
) -> (Map<u32, Transaction>, Seq<AccountModel>) {
    match t.transaction_type {
        TransactionType::Deposit | TransactionType::Withdrawal => {
            let s = Transaction {
                transaction_type: t.transaction_type,
                client: t.client,
                tx: t.tx,
                amount: t.amount,
                state: TransactionState::New,
            };
            (store.insert(t.tx, s), log.push(spec_delta(s)))
        },
        _ => spec_transition(store, log, t.tx, source_state(t.transaction_type),
            target_state(t.transaction_type)),
    }
}

/// Fold a sequence of deltas into an accumulated account, strictly in
/// sequence order, one merge per delta.
pub open spec fn fold_deltas(acc: AccountModel, ds: Seq<AccountModel>) -> AccountModel
    decreases ds.len(),
{
    if ds.len() == 0 {
        acc
    } else {
        spec_merge(fold_deltas(acc, ds.drop_last()), ds.last())
    }
}

/// The subsequence of deltas belonging to one client, in log order.
pub open spec fn client_deltas(log: Seq<AccountModel>, c: u16) -> Seq<AccountModel>
    decreases log.len(),
{
    if log.len() == 0 {
        Seq::empty()
    } else {
        let p = client_deltas(log.drop_last(), c);
        if log.last().client == c {
            p.push(log.last())
        } else {
            p
        }
    }
}

/// The final account of one client: that client's deltas, folded in log
/// order onto the zero account.
pub open spec fn fold_client(log: Seq<AccountModel>, c: u16) -> AccountModel {
    fold_deltas(init_model(c), client_deltas(log, c))
}

/// The distinct clients a log mentions, in order of first appearance.
pub open spec fn log_clients(log: Seq<AccountModel>) -> Seq<u16>
    decreases log.len(),
{
    if log.len() == 0 {
        Seq::empty()
    } else {
        let p = log_clients(log.drop_last());
        if p.contains(log.last().client) {
            p
        } else {
            p.push(log.last().client)
        }
    }
}

/// The full snapshot of a delta log: one folded account per distinct
/// client, in order of each client's first appearance in the log.
pub open spec fn spec_snapshot(log: Seq<AccountModel>) -> Seq<AccountModel> {
    log_clients(log).map_values(|c: u16| fold_client(log, c))
}

/// A client absent from a log has no deltas there.
proof fn lemma_absent_client(log: Seq<AccountModel>, c: u16)
    requires
        !log_clients(log).contains(c),
    ensures
        client_deltas(log, c) == Seq::<AccountModel>::empty(),
    decreases log.len(),
{
    if log.len() > 0 {
        let p = log_clients(log.drop_last());
        if p.contains(c) {
            assert(log_clients(log).contains(c)) by {
                let i = choose|i: int| 0 <= i < p.len() && p[i] == c;
                assert(log_clients(log)[i] == c);
            }
        }
        lemma_absent_client(log.drop_last(), c);
        assert(log.last().client != c) by {
            if log.last().client == c {
                if p.contains(c) {
                } else {
                    assert(log_clients(log).last() == c);
                }
            }
        }
    }
}

/// Every partial fold of bounded deltas stays within `len * MAX_AMOUNT` of
/// zero in each balance field, and keeps the client id it started with.
proof fn lemma_fold_client_bounded(log: Seq<AccountModel>, c: u16)
    requires
        forall|i: int| 0 <= i < log.len() ==> delta_bounded(#[trigger] log[i]),
    ensures
        -(log.len() * MAX_AMOUNT as int) <= fold_client(log, c).available
            <= log.len() * MAX_AMOUNT as int,
        -(log.len() * MAX_AMOUNT as int) <= fold_client(log, c).held
            <= log.len() * MAX_AMOUNT as int,
        -(log.len() * MAX_AMOUNT as int) <= fold_client(log, c).total
            <= log.len() * MAX_AMOUNT as int,
        fold_client(log, c).client == c,
    decreases log.len(),
{
    if log.len() == 0 {
    } else {
        let prefix = log.drop_last();
        lemma_fold_client_bounded(prefix, c);
        assert(forall|i: int| 0 <= i < prefix.len() ==> delta_bounded(#[trigger] prefix[i]));
        let p = client_deltas(prefix, c);
        if log.last().client == c {
            assert(client_deltas(log, c) == p.push(log.last()));
            assert(p.push(log.last()).drop_last() =~= p);
            assert(fold_client(log, c) == spec_merge(fold_client(prefix, c), log.last()));
            assert(delta_bounded(log[log.len() - 1]));
        } else {
            assert(client_deltas(log, c) == p);
        }
    }
}

impl Ledger {
    /// Well-formedness: every stored transaction is a deposit or withdrawal
    /// with a bounded amount, keyed by its own id, and every delta in the
    /// log has bounded fields.
    pub open spec fn wf(&self) -> bool {
        &&& forall|k: u32| #[trigger] self@.store.contains_key(k)
            ==> stored_ok(self@.store[k]) && self@.store[k].tx == k
        &&& forall|i: int| 0 <= i < self@.log.len() ==> delta_bounded(#[trigger] self@.log[i])
    }

    /// Create an engine with an empty store and log, ready to ingest.
    pub fn new() -> (l: Ledger)
        ensures
            l.wf(),
            l@.store == Map::<u32, Transaction>::empty(),
            l@.log == Seq::<AccountModel>::empty(),
            !l@.stopped,
    {
        let l = Ledger { tx_db: HashMap::new(), log: Vec::new(), stopped: false };
        proof {
            assert(l@.log =~= Seq::<AccountModel>::empty());
        }
        l
    }

    /// Attempt one gated dispute-workflow transition.
    fn apply_transition(&mut self, id: u32, from: TransactionState, to: TransactionState)
        requires
            old(self).wf(),
        ensures
            final(self).wf(),
            final(self)@.stopped == old(self)@.stopped,
            (final(self)@.store, final(self)@.log)
                == spec_transition(old(self)@.store, old(self)@.log, id, from, to),
    {
        let cur: Option<Transaction> = match self.tx_db.get(&id) {
            Some(t) => Some(*t),
            None => None,
        };
        match cur {
            Some(stored) => {
                if stored.state == from {
                    let u = Transaction {
                        transaction_type: stored.transaction_type,
                        client: stored.client,
                        tx: stored.tx,
                        amount: stored.amount,
                        state: to,
                    };
                    let d = Account::from_transaction(&u);
                    self.tx_db.insert(id, u);
                    self.log.push(d);
                    proof {
                        assert(self@.log =~= old(self)@.log.push(d@));
                    }
                }
            },
            None => {},
        }
    }

    /// Ingest one event. Fails only when the engine has already stopped;
    /// every accepted event updates the store and log exactly as
    /// `spec_step` says, and rejected or unknown dispute-workflow events
    /// are silently absorbed inside that step.
    pub fn push_transaction(&mut self, t: Transaction) -> (r: Result<(), LedgerError>)
        requires
            old(self).wf(),
            amount_ok(t),
        ensures
            final(self).wf(),
            final(self)@.stopped == old(self)@.stopped,
            old(self)@.stopped ==> r == Err::<(), LedgerError>(LedgerError::EngineStopped)
                && final(self)@ == old(self)@,
            !old(self)@.stopped ==> r == Ok::<(), LedgerError>(())
                && (final(self)@.store, final(self)@.log)
                    == spec_step(old(self)@.store, old(self)@.log, t),
    {
        if self.stopped {
            return Err(LedgerError::EngineStopped);
        }
        match t.transaction_type {
            TransactionType::Deposit | TransactionType::Withdrawal => {
                let s = Transaction {
                    transaction_type: t.transaction_type,
                    client: t.client,
                    tx: t.tx,
                    amount: t.amount,
                    state: TransactionState::New,
                };
                let d = Account::from_transaction(&s);
                self.tx_db.insert(s.tx, s);
                self.log.push(d);
                proof {
                    assert(self@.log =~= old(self)@.log.push(d@));
                }
                Ok(())
            },
            TransactionType::Dispute => {
                self.apply_transition(t.tx, TransactionState::New, TransactionState::Dispute);
                Ok(())
            },
            TransactionType::Resolve => {
                self.apply_transition(t.tx, TransactionState::Dispute, TransactionState::Resolve);
                Ok(())
            },
            TransactionType::Chargeback => {
                self.apply_transition(t.tx, TransactionState::Dispute, TransactionState::Chargeback);
                Ok(())
            },
        }
    }

    /// Stop the engine: no further events are accepted. Fails if the
    /// engine has already stopped; the store and log are kept either way.
    pub fn stop(&mut self) -> (r: Result<(), LedgerError>)
        requires
            old(self).wf(),
        ensures
            final(self).wf(),
            final(self)@.store == old(self)@.store,
            final(self)@.log == old(self)@.log,
            final(self)@.stopped,
            old(self)@.stopped ==> r == Err::<(), LedgerError>(LedgerError::EngineStopped),
            !old(self)@.stopped ==> r == Ok::<(), LedgerError>(()),
    {
        if self.stopped {
            return Err(LedgerError::EngineStopped);
        }
        self.stopped = true;
        proof {
            assert(self@.store == old(self)@.store);
            assert(self@.log == old(self)@.log);
        }
        Ok(())
    }

    /// Build the snapshot: fold the delta log, strictly in log order, into
    /// one account per distinct client, in order of first appearance. The
    /// result is exactly `spec_snapshot` of the log, so two snapshots of an
    /// unchanged ledger are identical.
    pub fn get_snapshot(&self) -> (r: Vec<Account>)
        requires
            self.wf(),
        ensures
            r@.map_values(|a: Account| a@) == spec_snapshot(self@.log),
    {
        let ghost logm = self@.log;
        let mut out: Vec<Account> = Vec::new();
        let mut i: usize = 0;
        proof {
            assert(logm.take(0) =~= Seq::<AccountModel>::empty());
        }
        while i < self.log.len()
            invariant
                self.wf(),
                logm == self@.log,
                i <= logm.len(),
                out@.len() == log_clients(logm.take(i as int)).len(),
                forall|j: int| 0 <= j < out@.len()
                    ==> (#[trigger] out@[j]).client == log_clients(logm.take(i as int))[j],
                forall|j: int| 0 <= j < out@.len()
                    ==> (#[trigger] out@[j])@ == fold_client(logm.take(i as int), out@[j].client),
                forall|j1: int, j2: int| 0 <= j1 < j2 < out@.len()
                    ==> out@[j1].client != out@[j2].client,
            decreases logm.len() - i,
        {
            let d = self.log[i];
            let ghost pre = logm.take(i as int);
            let ghost post = logm.take(i as int + 1);
            proof {
                assert(post.drop_last() =~= pre);
                assert(post.last() == logm[i as int]);
                assert(d@ == logm[i as int]);
                assert(delta_bounded(logm[i as int]));
            }
            let n = out.len();
            let mut j: usize = 0;
            let mut idx: usize = n;
            while j < n
                invariant
                    j <= n,
                    n == out@.len(),
                    idx == n ==> forall|j2: int| 0 <= j2 < j
                        ==> (#[trigger] out@[j2]).client != d.client,
                    idx < n ==> out@[idx as int].client == d.client,
                    idx <= n,
                decreases n - j,
            {
                if idx == n && out[j].client == d.client {
                    idx = j;
                }
                j = j + 1;
            }
            if idx < n {
                proof {
                    assert(log_clients(pre).contains(d.client)) by {
                        assert(log_clients(pre)[idx as int] == d.client);
                    }
                    assert(log_clients(post) =~= log_clients(pre));
                    lemma_fold_client_bounded(pre, d.client);
                    assert(forall|i2: int| 0 <= i2 < pre.len()
                        ==> delta_bounded(#[trigger] pre[i2]));
                }
                let merged = out[idx].merge(d);
                proof {
                    assert(client_deltas(post, d.client)
                        == client_deltas(pre, d.client).push(post.last()));
                    assert(client_deltas(pre, d.client).push(post.last()).drop_last()
                        =~= client_deltas(pre, d.client));
                    assert(out@[idx as int]@ == fold_client(pre, d.client));
                    assert(fold_client(post, d.client)
                        == spec_merge(fold_deltas(init_model(d.client),
                            client_deltas(post, d.client).drop_last()),
                            client_deltas(post, d.client).last()));
                    assert(merged@ == fold_client(post, d.client));
                    assert(forall|c: u16| c != d.client
                        ==> client_deltas(post, c) == client_deltas(pre, c));
                }
                out[idx] = merged;
            } else {
                proof {
                    assert(!log_clients(pre).contains(d.client)) by {
                        if log_clients(pre).contains(d.client) {
                            let j2 = choose|j2: int| 0 <= j2 < log_clients(pre).len()
                                && log_clients(pre)[j2] == d.client;
                            assert(out@[j2].client == d.client);
                        }
                    }
                    assert(log_clients(post) =~= log_clients(pre).push(d.client));
                    lemma_absent_client(pre, d.client);
                    assert(client_deltas(post, d.client)
                        == client_deltas(pre, d.client).push(post.last()));
                    assert(client_deltas(post, d.client)
                        =~= Seq::<AccountModel>::empty().push(post.last()));
                    assert(Seq::<AccountModel>::empty().push(post.last()).drop_last()
                        =~= Seq::<AccountModel>::empty());
                    assert(forall|c: u16| c != d.client
                        ==> client_deltas(post, c) == client_deltas(pre, c));
                }
                let base = Account::new(d.client);
                let merged = base.merge(d);
                proof {
                    assert(fold_client(post, d.client)
                        == spec_merge(fold_deltas(init_model(d.client),
                            client_deltas(post, d.client).drop_last()),
                            client_deltas(post, d.client).last()));
                    assert(client_deltas(post, d.client).drop_last()
                        =~= Seq::<AccountModel>::empty());
                    assert(fold_deltas(init_model(d.client), Seq::<AccountModel>::empty())
                        == init_model(d.client));
                    assert(client_deltas(post, d.client).last() == d@);
                    assert(merged@ == fold_client(post, d.client));
                }
                out.push(merged);
            }
            i = i + 1;
        }
        proof {
            assert(logm.take(logm.len() as int) =~= logm);
            assert(out@.map_values(|a: Account| a@) =~= spec_snapshot(logm));
        }
        out
    }

    /// Process one inbound message: ingest a transaction, or stop on the
    /// kill signal. Returns whether the engine should keep consuming.
    pub fn handle_signal(&mut self, s: Signal) -> (r: Result<bool, LedgerError>)
        requires
            old(self).wf(),
            s matches Signal::Transaction(t) ==> amount_ok(t),
        ensures
            final(self).wf(),
            match s {
                Signal::Kill => {
                    &&& final(self)@.store == old(self)@.store
                    &&& final(self)@.log == old(self)@.log
                    &&& final(self)@.stopped
                    &&& (r == Ok::<bool, LedgerError>(false) <==> !old(self)@.stopped)
                },
                Signal::Transaction(t) => {
                    &&& final(self)@.stopped == old(self)@.stopped
                    &&& !old(self)@.stopped ==> r == Ok::<bool, LedgerError>(true)
                        && (final(self)@.store, final(self)@.log)
                            == spec_step(old(self)@.store, old(self)@.log, t)
                    &&& old(self)@.stopped ==> r == Err::<bool, LedgerError>(LedgerError::EngineStopped)
                        && final(self)@ == old(self)@
                },
            },
    {
        match s {
            Signal::Kill => match self.stop() {
                Ok(()) => Ok(false),
                Err(e) => Err(e),
            },
            Signal::Transaction(t) => match self.push_transaction(t) {
                Ok(()) => Ok(true),
                Err(e) => Err(e),
            },
        }
    }
}

} // verus!
