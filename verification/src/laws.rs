//! Laws of the engine: properties that hold of the delta algebra, the
//! transition gate, the merge operation and the snapshot fold, stated over
//! the same spec functions the executable contracts use.

use vstd::prelude::*;
use crate::types::{
    AccountModel, Transaction, TransactionState, TransactionType,
    amount_of, init_model, spec_delta, spec_merge, MAX_AMOUNT,
};
use crate::ledger::{client_deltas, fold_client, fold_deltas, log_clients, spec_snapshot, spec_step};

verus! {

/// A deposit of amount `a` for client `c`, ingested into a fresh engine
/// with no later events, snapshots to exactly
/// `{available: a, held: 0, total: a, locked: false}`.
pub proof fn lemma_single_deposit_snapshot(c: u16, id: u32, a: u64)
    requires
        a <= MAX_AMOUNT,
    ensures
        ({
            let t = Transaction {
                transaction_type: TransactionType::Deposit,
                client: c,
                tx: id,
                amount: Some(a),
                state: TransactionState::New,
            };
            let (store, log) = spec_step(
                Map::<u32, Transaction>::empty(),
                Seq::<AccountModel>::empty(),
                t,
            );
            fold_client(log, c) == AccountModel {
                client: c,
                available: a as int,
                held: 0,
                total: a as int,
                locked: false,
            }
        }),
{
    let t = Transaction {
        transaction_type: TransactionType::Deposit,
        client: c,
        tx: id,
        amount: Some(a),
        state: TransactionState::New,
    };
    let (store, log) = spec_step(
        Map::<u32, Transaction>::empty(),
        Seq::<AccountModel>::empty(),
        t,
    );
    let d = spec_delta(t);
    assert(log =~= Seq::<AccountModel>::empty().push(d));
    lemma_fold_client_snoc(Seq::<AccountModel>::empty(), d);
    assert(client_deltas(Seq::<AccountModel>::empty(), c) == Seq::<AccountModel>::empty());
    assert(fold_deltas(init_model(c), Seq::<AccountModel>::empty()) == init_model(c));
}

/// Appending one delta to the log changes only its own client's folded
/// account, by exactly one merge; every other client's account is
/// untouched.
pub proof fn lemma_fold_client_snoc(log: Seq<AccountModel>, d: AccountModel)
    ensures
        fold_client(log.push(d), d.client) == spec_merge(fold_client(log, d.client), d),
        forall|c: u16| c != d.client
            ==> fold_client(#[trigger] log.push(d), c) == fold_client(log, c),
{
    assert(log.push(d).drop_last() =~= log);
    assert(log.push(d).last() == d);
    assert(client_deltas(log.push(d), d.client) == client_deltas(log, d.client).push(d));
    assert(client_deltas(log, d.client).push(d).drop_last() =~= client_deltas(log, d.client));
    assert(fold_deltas(init_model(d.client), client_deltas(log, d.client).push(d))
        == spec_merge(fold_deltas(init_model(d.client),
            client_deltas(log, d.client).push(d).drop_last()), d));
    assert forall|c: u16| c != d.client
        implies fold_client(log.push(d), c) == fold_client(log, c) by {
        assert(client_deltas(log.push(d), c) == client_deltas(log, c));
    }
}

/// A withdrawal of amount `a` against an unlocked account with sufficient
/// available balance: the snapshot shows `available` and `total` lowered by
/// exactly `a`, with `held` and `locked` unchanged.
pub proof fn lemma_withdrawal_applies(log: Seq<AccountModel>, t: Transaction, a: u64)
    requires
        t.transaction_type == TransactionType::Withdrawal,
        t.state == TransactionState::New,
        t.amount == Some(a),
        !fold_client(log, t.client).locked,
        fold_client(log, t.client).available >= a,
    ensures
        ({
            let before = fold_client(log, t.client);
            fold_client(log.push(spec_delta(t)), t.client) == (AccountModel {
                client: before.client,
                available: before.available - a,
                held: before.held,
                total: before.total - a,
                locked: before.locked,
            })
        }),
{
    lemma_fold_client_snoc(log, spec_delta(t));
}

/// Disputing a deposit and then resolving it has zero net effect on the
/// client's snapshot: the available, held and total balances all return to
/// their pre-dispute values and the account stays unlocked.
pub proof fn lemma_dispute_resolve_cancels(log: Seq<AccountModel>, t: Transaction)
    requires
        t.transaction_type == TransactionType::Deposit,
        !fold_client(log, t.client).locked,
    ensures
        ({
            let dd = spec_delta(Transaction {
                transaction_type: t.transaction_type,
                client: t.client,
                tx: t.tx,
                amount: t.amount,
                state: TransactionState::Dispute,
            });
            let rd = spec_delta(Transaction {
                transaction_type: t.transaction_type,
                client: t.client,
                tx: t.tx,
                amount: t.amount,
                state: TransactionState::Resolve,
            });
            let before = fold_client(log, t.client);
            let after = fold_client(log.push(dd).push(rd), t.client);
            after.available == before.available
                && after.held == before.held
                && after.total == before.total
                && !after.locked
        }),
{
    let dd = spec_delta(Transaction {
        transaction_type: t.transaction_type,
        client: t.client,
        tx: t.tx,
        amount: t.amount,
        state: TransactionState::Dispute,
    });
    let rd = spec_delta(Transaction {
        transaction_type: t.transaction_type,
        client: t.client,
        tx: t.tx,
        amount: t.amount,
        state: TransactionState::Resolve,
    });
    lemma_fold_client_snoc(log, dd);
    lemma_fold_client_snoc(log.push(dd), rd);
}

/// Disputing a deposit and then charging it back: the chargeback step
/// leaves `available` at its disputed value (the pre-dispute value minus
/// the disputed amount), returns `held` to its pre-dispute value, lowers
/// `total` by the disputed amount, and freezes the account.
/// A zero-amount dispute against an account already negative in
/// `available` is merge-rejected, so that corner is excluded.
pub proof fn lemma_dispute_chargeback_freezes(log: Seq<AccountModel>, t: Transaction)
    requires
        t.transaction_type == TransactionType::Deposit,
        !fold_client(log, t.client).locked,
        amount_of(t) > 0 || fold_client(log, t.client).available >= 0,
    ensures
        ({
            let a = amount_of(t);
            let dd = spec_delta(Transaction {
                transaction_type: t.transaction_type,
                client: t.client,
                tx: t.tx,
                amount: t.amount,
                state: TransactionState::Dispute,
            });
            let cd = spec_delta(Transaction {
                transaction_type: t.transaction_type,
                client: t.client,
                tx: t.tx,
                amount: t.amount,
                state: TransactionState::Chargeback,
            });
            let before = fold_client(log, t.client);
            let mid = fold_client(log.push(dd), t.client);
            let after = fold_client(log.push(dd).push(cd), t.client);
            after.available == mid.available
                && after.available == before.available - a
                && after.held == before.held
                && after.total == before.total - a
                && after.locked
        }),
{
    let dd = spec_delta(Transaction {
        transaction_type: t.transaction_type,
        client: t.client,
        tx: t.tx,
        amount: t.amount,
        state: TransactionState::Dispute,
    });
    let cd = spec_delta(Transaction {
        transaction_type: t.transaction_type,
        client: t.client,
        tx: t.tx,
        amount: t.amount,
        state: TransactionState::Chargeback,
    });
    lemma_fold_client_snoc(log, dd);
    lemma_fold_client_snoc(log.push(dd), cd);
}

/// A frozen account absorbs every later delta unchanged: no event for that
/// client produces any further change to its account.
pub proof fn lemma_frozen_absorbs(acc: AccountModel, d: AccountModel)
    requires
        acc.locked,
    ensures
        spec_merge(acc, d) == acc,
{
}

/// Once a client's folded account is frozen, appending any further delta of
/// that client leaves its snapshot exactly as it was.
pub proof fn lemma_frozen_client_unaffected(log: Seq<AccountModel>, d: AccountModel)
    requires
        fold_client(log, d.client).locked,
    ensures
        fold_client(log.push(d), d.client) == fold_client(log, d.client),
{
    lemma_fold_client_snoc(log, d);
}

/// A resolve or chargeback referencing a transaction that is unknown or
/// not currently disputed is a no-op: neither the store nor the delta log
/// changes, so every account is unaffected.
pub proof fn lemma_undisputed_reference_noop(
    store: Map<u32, Transaction>,
    log: Seq<AccountModel>,
    t: Transaction,
)
    requires
        t.transaction_type == TransactionType::Resolve
            || t.transaction_type == TransactionType::Chargeback,
        store.contains_key(t.tx) ==> store[t.tx].state != TransactionState::Dispute,
    ensures
        spec_step(store, log, t) == (store, log),
{
}

/// A second dispute against an already-disputed transaction is a no-op:
/// neither the store nor the delta log changes.
pub proof fn lemma_second_dispute_noop(
    store: Map<u32, Transaction>,
    log: Seq<AccountModel>,
    t: Transaction,
)
    requires
        t.transaction_type == TransactionType::Dispute,
        store.contains_key(t.tx),
        store[t.tx].state == TransactionState::Dispute,
    ensures
        spec_step(store, log, t) == (store, log),
{
}

/// Snapshotting is idempotent: with no intervening events, any two
/// snapshots of the same delta log are identical. `Ledger::get_snapshot`
/// pins its result to `spec_snapshot` of the log, so two calls on a
/// stopped, unchanged ledger return equal vectors.
pub proof fn lemma_snapshot_idempotent(
    log: Seq<AccountModel>,
    r1: Seq<AccountModel>,
    r2: Seq<AccountModel>,
)
    requires
        r1 == spec_snapshot(log),
        r2 == spec_snapshot(log),
    ensures
        r1 == r2,
{
}

/// Cross-client independence: a client's final account depends only on its
/// own deltas and their order. Two logs that agree on one client's delta
/// subsequence — however the other clients' deltas are ordered around it —
/// fold to the same account for that client.
pub proof fn lemma_cross_client_independence(
    log1: Seq<AccountModel>,
    log2: Seq<AccountModel>,
    c: u16,
)
    requires
        client_deltas(log1, c) == client_deltas(log2, c),
    ensures
        fold_client(log1, c) == fold_client(log2, c),
{
}

/// Folding never changes whose account it is: the fold of a client's deltas
/// carries that client's id.
pub proof fn lemma_fold_client_id(log: Seq<AccountModel>, c: u16)
    ensures
        fold_client(log, c).client == c,
{
    lemma_fold_deltas_id(init_model(c), client_deltas(log, c));
}

proof fn lemma_fold_deltas_id(acc: AccountModel, ds: Seq<AccountModel>)
    ensures
        fold_deltas(acc, ds).client == acc.client,
    decreases ds.len(),
{
    if ds.len() > 0 {
        lemma_fold_deltas_id(acc, ds.drop_last());
    }
}

/// The snapshot's client list is complete and no wider than the log: a
/// client is listed exactly when the log holds a delta of that client.
pub proof fn lemma_log_clients_complete(log: Seq<AccountModel>, c: u16)
    ensures
        log_clients(log).contains(c)
            <==> exists|i: int| 0 <= i < log.len() && (#[trigger] log[i]).client == c,
    decreases log.len(),
{
    if log.len() > 0 {
        let prefix = log.drop_last();
        lemma_log_clients_complete(prefix, c);
        let p = log_clients(prefix);
        assert forall|x: u16| p.contains(x) implies log_clients(log).contains(x) by {
            let i = choose|i: int| 0 <= i < p.len() && p[i] == x;
            assert(log_clients(log)[i] == x);
        }
        if exists|i: int| 0 <= i < log.len() && (#[trigger] log[i]).client == c {
            let i = choose|i: int| 0 <= i < log.len() && (#[trigger] log[i]).client == c;
            if i < log.len() - 1 {
                assert(prefix[i].client == c);
            } else {
                if !p.contains(c) {
                    assert(log_clients(log).last() == c);
                }
            }
        }
        if log_clients(log).contains(c) {
            if p.contains(c) {
                let i = choose|i: int| 0 <= i < prefix.len() && (#[trigger] prefix[i]).client == c;
                assert(log[i].client == c);
            } else if log.last().client == c {
                assert(log[log.len() - 1].client == c);
            } else {
                let j = choose|j: int| 0 <= j < log_clients(log).len()
                    && log_clients(log)[j] == c;
                if p.contains(log.last().client) {
                    assert(p[j] == c);
                } else if j < p.len() {
                    assert(p[j] == c);
                } else {
                    assert(log_clients(log)[j] == log.last().client);
                }
            }
        }
    }
}

/// The snapshot holds exactly one account per distinct client the log
/// mentions, and each entry is that client's own deltas folded in log
/// order.
pub proof fn lemma_snapshot_complete(log: Seq<AccountModel>)
    ensures
        spec_snapshot(log).len() == log_clients(log).len(),
        forall|j: int| 0 <= j < spec_snapshot(log).len()
            ==> #[trigger] spec_snapshot(log)[j] == fold_client(log, log_clients(log)[j]),
        forall|j: int| 0 <= j < spec_snapshot(log).len()
            ==> (#[trigger] spec_snapshot(log)[j]).client == log_clients(log)[j],
        forall|c: u16| log_clients(log).contains(c)
            <==> exists|i: int| 0 <= i < log.len() && (#[trigger] log[i]).client == c,
{
    assert forall|j: int| 0 <= j < spec_snapshot(log).len()
        implies (#[trigger] spec_snapshot(log)[j]).client == log_clients(log)[j] by {
        lemma_fold_client_id(log, log_clients(log)[j]);
    }
    assert forall|c: u16| log_clients(log).contains(c)
        <==> exists|i: int| 0 <= i < log.len() && (#[trigger] log[i]).client == c by {
        lemma_log_clients_complete(log, c);
    }
}

/// Swapping two adjacent deltas of different clients leaves every client's
/// delta subsequence unchanged, and so leaves every client's final account
/// unchanged.
pub proof fn lemma_swap_adjacent_independent(log: Seq<AccountModel>, i: int)
    requires
        0 <= i,
        i + 1 < log.len(),
        log[i].client != log[i + 1].client,
    ensures
        forall|c: u16| fold_client(log, c)
            == fold_client(#[trigger] log.update(i, log[i + 1]).update(i + 1, log[i]), c),
{
    let swapped = log.update(i, log[i + 1]).update(i + 1, log[i]);
    assert forall|c: u16| fold_client(log, c) == fold_client(swapped, c) by {
        lemma_client_deltas_swap(log, i, c);
    }
}

/// Helper for the swap law: the per-client subsequence ignores an adjacent
/// swap of two deltas belonging to different clients.
proof fn lemma_client_deltas_swap(log: Seq<AccountModel>, i: int, c: u16)
    requires
        0 <= i,
        i + 1 < log.len(),
        log[i].client != log[i + 1].client,
    ensures
        client_deltas(log, c)
            == client_deltas(log.update(i, log[i + 1]).update(i + 1, log[i]), c),
    decreases log.len(),
{
    let swapped = log.update(i, log[i + 1]).update(i + 1, log[i]);
    if i + 2 == log.len() {
        let base = log.drop_last().drop_last();
        assert(log.drop_last() =~= base.push(log[i]));
        assert(swapped.drop_last() =~= base.push(log[i + 1]));
        assert(base.push(log[i]).drop_last() =~= base);
        assert(base.push(log[i + 1]).drop_last() =~= base);
        assert(log.last() == log[i + 1]);
        assert(swapped.last() == log[i]);
        assert(client_deltas(log, c) == (if log.last().client == c {
            client_deltas(log.drop_last(), c).push(log.last())
        } else {
            client_deltas(log.drop_last(), c)
        }));
        assert(client_deltas(base.push(log[i]), c) == (if log[i].client == c {
            client_deltas(base, c).push(log[i])
        } else {
            client_deltas(base, c)
        }));
        assert(client_deltas(swapped, c) == (if log[i].client == c {
            client_deltas(swapped.drop_last(), c).push(log[i])
        } else {
            client_deltas(swapped.drop_last(), c)
        }));
        assert(client_deltas(base.push(log[i + 1]), c) == (if log[i + 1].client == c {
            client_deltas(base, c).push(log[i + 1])
        } else {
            client_deltas(base, c)
        }));
    } else {
        lemma_client_deltas_swap(log.drop_last(), i, c);
        assert(swapped.drop_last()
            =~= log.drop_last().update(i, log[i + 1]).update(i + 1, log[i]));
        assert(swapped.last() == log.last());
        assert(client_deltas(log, c) == (if log.last().client == c {
            client_deltas(log.drop_last(), c).push(log.last())
        } else {
            client_deltas(log.drop_last(), c)
        }));
        assert(client_deltas(swapped, c) == (if swapped.last().client == c {
            client_deltas(swapped.drop_last(), c).push(swapped.last())
        } else {
            client_deltas(swapped.drop_last(), c)
        }));
    }
}

} // verus!
