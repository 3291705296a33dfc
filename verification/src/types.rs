//! Core data model: transaction records, lifecycle states, accounts, the
//! delta algebra mapping accepted transitions to balance effects, and the
//! order-dependent merge that folds deltas into an account.

use vstd::prelude::*;

verus! {

/// Largest amount a single transaction may carry. Amounts are fixed-point
/// integers; this bound guarantees that every partial fold of the delta log
/// stays within `i128`, however long the log grows.
pub const MAX_AMOUNT: u64 = 0x3FFF_FFFF_FFFF_FFFF;

/// The kind of an incoming event.
#[derive(Clone, Copy, Debug, PartialEq, Eq, Structural)]
pub enum TransactionType {
    Deposit,
    Withdrawal,
    Dispute,
    Resolve,
    Chargeback,
}

/// The dispute-workflow stage a recorded transaction currently occupies.
/// Legal transitions: `New -> Dispute -> {Resolve | Chargeback}`; the last
/// two are terminal.
#[derive(Clone, Copy, Debug, PartialEq, Eq, Structural)]
pub enum TransactionState {
    New,
    Dispute,
    Resolve,
    Chargeback,
}

impl Default for TransactionState {
    fn default() -> (s: Self)
        ensures
            s == TransactionState::New,
    {
        TransactionState::New
    }
}

/// One financial event. `amount` is present only for deposits and
/// withdrawals; dispute-workflow events reference the original transaction
/// through the same `tx` id and carry no amount of their own.
#[derive(Clone, Copy, Debug)]
pub struct Transaction {
    pub transaction_type: TransactionType,
    pub client: u16,
    pub tx: u32,
    pub amount: Option<u64>,
    pub state: TransactionState,
}

/// A per-client balance view. The same shape serves both as one delta (the
/// balance effect of a single accepted transition) and as the accumulated
/// snapshot for a client.
#[derive(Clone, Copy, Debug, PartialEq, Eq, Structural)]
pub struct Account {
    pub client: u16,
    pub available: i128,
    pub held: i128,
    pub total: i128,
    pub locked: bool,
}

/// Mathematical view of an `Account`: the same fields over unbounded
/// integers, so that contracts and lemmas speak of exact sums.
pub struct AccountModel {
    pub client: u16,
    pub available: int,
    pub held: int,
    pub total: int,
    pub locked: bool,
}

impl View for Account {
    type V = AccountModel;

    open spec fn view(&self) -> AccountModel {
        AccountModel {
            client: self.client,
            available: self.available as int,
            held: self.held as int,
            total: self.total as int,
            locked: self.locked,
        }
    }
}

/// The amount a transaction carries, defaulting to zero when absent.
pub open spec fn amount_of(t: Transaction) -> int {
    match t.amount {
        Some(a) => a as int,
        None => 0,
    }
}

/// Whether a transaction's amount respects the machine bound.
pub open spec fn amount_ok(t: Transaction) -> bool {
    match t.amount {
        Some(a) => a <= MAX_AMOUNT,
        None => true,
    }
}

/// The zero account a client starts from, unlocked.
pub open spec fn init_model(client: u16) -> AccountModel {
    AccountModel { client, available: 0, held: 0, total: 0, locked: false }
}

/// The delta algebra: the balance effect of a transaction, given its type,
/// the amount of the original deposit or withdrawal, and the lifecycle state
/// just entered. Dispute-workflow event types themselves never reach the
/// delta log; for them the effect is the empty delta.
pub open spec fn spec_delta(t: Transaction) -> AccountModel {
    let a = amount_of(t);
    match t.transaction_type {
        TransactionType::Deposit => match t.state {
            TransactionState::New => AccountModel {
                client: t.client, available: a, held: 0, total: a, locked: false,
            },
            TransactionState::Dispute => AccountModel {
                client: t.client, available: -a, held: a, total: 0, locked: false,
            },
            TransactionState::Resolve => AccountModel {
                client: t.client, available: a, held: -a, total: 0, locked: false,
            },
            TransactionState::Chargeback => AccountModel {
                client: t.client, available: 0, held: -a, total: -a, locked: true,
            },
        },
        TransactionType::Withdrawal => match t.state {
            TransactionState::New => AccountModel {
                client: t.client, available: -a, held: 0, total: -a, locked: false,
            },
            TransactionState::Dispute => AccountModel {
                client: t.client, available: a, held: -a, total: 0, locked: false,
            },
            TransactionState::Resolve => AccountModel {
                client: t.client, available: -a, held: 0, total: -a, locked: false,
            },
            TransactionState::Chargeback => AccountModel {
                client: t.client, available: 0, held: 0, total: 0, locked: true,
            },
        },
        _ => init_model(t.client),
    }
}

/// Every field of a delta is bounded by the largest legal amount.
pub open spec fn delta_bounded(d: AccountModel) -> bool {
    &&& -(MAX_AMOUNT as int) <= d.available <= MAX_AMOUNT as int
    &&& -(MAX_AMOUNT as int) <= d.held <= MAX_AMOUNT as int
    &&& -(MAX_AMOUNT as int) <= d.total <= MAX_AMOUNT as int
}

/// The merge operation folding one delta into an accumulated account.
/// Order-dependent and short-circuiting: a frozen account absorbs every
/// later delta unchanged, and a delta that would drive `available` negative
/// is rejected unless it is dispute-related (nonzero `held` component).
pub open spec fn spec_merge(acc: AccountModel, next: AccountModel) -> AccountModel {
    if acc.locked {
        acc
    } else if acc.available + next.available < 0 && next.held == 0 {
        acc
    } else {
        AccountModel {
            client: acc.client,
            available: acc.available + next.available,
            held: acc.held + next.held,
            total: acc.total + next.total,
            locked: acc.locked || next.locked,
        }
    }
}

impl Account {
    /// Create the zero account for a client.
    pub fn new(client: u16) -> (a: Account)
        ensures
            a@ == init_model(client),
    {
        Account { client, available: 0, held: 0, total: 0, locked: false }
    }

    /// Compute the delta a transaction contributes in its current lifecycle
    /// state, per the delta algebra.
    pub fn from_transaction(t: &Transaction) -> (d: Account)
        requires
            amount_ok(*t),
        ensures
            d@ == spec_delta(*t),
    {
        let a: i128 = match t.amount {
            Some(v) => v as i128,
            None => 0,
        };
        match t.transaction_type {
            TransactionType::Deposit => match t.state {
                TransactionState::New => Account {
                    client: t.client, available: a, held: 0, total: a, locked: false,
                },
                TransactionState::Dispute => Account {
                    client: t.client, available: -a, held: a, total: 0, locked: false,
                },
                TransactionState::Resolve => Account {
                    client: t.client, available: a, held: -a, total: 0, locked: false,
                },
                TransactionState::Chargeback => Account {
                    client: t.client, available: 0, held: -a, total: -a, locked: true,
                },
            },
            TransactionType::Withdrawal => match t.state {
                TransactionState::New => Account {
                    client: t.client, available: -a, held: 0, total: -a, locked: false,
                },
                TransactionState::Dispute => Account {
                    client: t.client, available: a, held: -a, total: 0, locked: false,
                },
                TransactionState::Resolve => Account {
                    client: t.client, available: -a, held: 0, total: -a, locked: false,
                },
                TransactionState::Chargeback => Account {
                    client: t.client, available: 0, held: 0, total: 0, locked: true,
                },
            },
            _ => Account { client: t.client, available: 0, held: 0, total: 0, locked: false },
        }
    }

    /// Fold one delta into this accumulated account, per the merge rules.
    pub fn merge(self, next: Account) -> (r: Account)
        requires
            i128::MIN <= self@.available + next@.available <= i128::MAX,
            i128::MIN <= self@.held + next@.held <= i128::MAX,
            i128::MIN <= self@.total + next@.total <= i128::MAX,
        ensures
            r@ == spec_merge(self@, next@),
            r.client == self.client,
    {
        if self.locked {
            return self;
        }
        if self.available + next.available < 0 && next.held == 0 {
            return self;
        }
        Account {
            client: self.client,
            available: self.available + next.available,
            held: self.held + next.held,
            total: self.total + next.total,
            locked: self.locked || next.locked,
        }
    }
}

} // verus!
