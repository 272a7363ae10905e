//! A ledger engine that replays an ordered stream of typed financial
//! transactions and maintains per-client account balances: exact fixed-point
//! amounts, checked balance transitions, and the dispute lifecycle that moves
//! funds between available and held.

pub mod account;
pub mod currency;
pub mod transaction;

use vstd::prelude::*;
use std::collections::HashMap;
use crate::account::{
    Account, AccountModel, account_wf, chargeback_model, chargeback_ok, hold_model, hold_ok,
    release_model, release_ok,
};
use crate::transaction::{ClientId, Transaction, TransactionId};

verus! {

broadcast use vstd::std_specs::hash::group_hash_axioms;

/// Everything that can go wrong while a transaction is handled. A failed
/// transaction never mutates account or ledger state.
#[derive(Debug, PartialEq, Eq, Structural, Copy, Clone)]
pub enum Error {
    /// The input row is malformed: its amount is present where none is
    /// expected or absent where one is required.
    TransactionParseError,
    /// The held balance does not cover a release or chargeback; this points
    /// at an internal-consistency fault, not at user input.
    InsufficientHeldFunds,
    /// The transaction id was accepted before; the repeat has no effect.
    DuplicateTransaction(TransactionId),
    /// Checked arithmetic failed: the result does not fit the representation.
    Overflow,
    /// The account is locked by a chargeback and takes no further deposits
    /// or withdrawals.
    AccountLocked,
    /// The withdrawal amount exceeds the available balance.
    InsufficientFunds,
    /// A second dispute on an already disputed deposit, or a resolve or
    /// chargeback without an active dispute. (Amounts cannot be negative in
    /// this representation, so no transaction is rejected on that ground.)
    InvalidTransaction,
}

/// The mathematical state of the engine: the account map and the store of
/// accepted transactions, keyed by the raw identifier values.
pub struct LedgerModel {
    pub accounts: Map<u16, AccountModel>,
    pub txs: Map<u32, Transaction>,
}

/// Well-formedness of the engine state: every recorded deposit points at an
/// existing account, and every account is valid and filed under its own
/// client id.
pub open spec fn ledger_wf(m: LedgerModel) -> bool {
    &&& forall|id: u32| #[trigger]
        m.txs.contains_key(id) ==> match m.txs[id] {
            Transaction::Deposit { client, .. } => m.accounts.contains_key(client@),
            _ => true,
        }
    &&& forall|c: u16| #[trigger]
        m.accounts.contains_key(c) ==> account_wf(m.accounts[c]) && m.accounts[c].client == c
}

/// The account a transaction targets: the stored one, or a fresh account
/// created on first reference.
pub open spec fn account_or_new(m: LedgerModel, client: ClientId) -> AccountModel {
    if m.accounts.contains_key(client@) {
        m.accounts[client@]
    } else {
        AccountModel { client: client@, available: 0, held: 0, locked: false }
    }
}

/// One step of the dispatch state machine: the engine state after handling
/// `t`, paired with what the call reports. A rejected deposit or withdrawal
/// leaves balances untouched (though a freshly referenced account stays); an
/// unknown or non-disputable reference on dispute, resolve or chargeback is
/// a silent no-op.
pub open spec fn step(m: LedgerModel, t: Transaction) -> (LedgerModel, Result<(), Error>) {
    match t {
        Transaction::Deposit { client, tx, amount, .. } => {
            if m.txs.contains_key(tx@) {
                (m, Err(Error::DuplicateTransaction(tx)))
            } else {
                let a = account_or_new(m, client);
                if a.locked {
                    (
                        LedgerModel { accounts: m.accounts.insert(client@, a), ..m },
                        Err(Error::AccountLocked),
                    )
                } else if a.available + amount@ > u64::MAX {
                    (
                        LedgerModel { accounts: m.accounts.insert(client@, a), ..m },
                        Err(Error::Overflow),
                    )
                } else {
                    (
                        LedgerModel {
                            accounts: m.accounts.insert(
                                client@,
                                AccountModel { available: (a.available + amount@) as nat, ..a },
                            ),
                            txs: m.txs.insert(tx@, t),
                        },
                        Ok(()),
                    )
                }
            }
        },
        Transaction::Withdrawal { client, tx, amount } => {
            if m.txs.contains_key(tx@) {
                (m, Err(Error::DuplicateTransaction(tx)))
            } else {
                let a = account_or_new(m, client);
                if a.locked {
                    (
                        LedgerModel { accounts: m.accounts.insert(client@, a), ..m },
                        Err(Error::AccountLocked),
                    )
                } else if amount@ > a.available {
                    (
                        LedgerModel { accounts: m.accounts.insert(client@, a), ..m },
                        Err(Error::InsufficientFunds),
                    )
                } else {
                    (
                        LedgerModel {
                            accounts: m.accounts.insert(
                                client@,
                                AccountModel { available: (a.available - amount@) as nat, ..a },
                            ),
                            txs: m.txs.insert(tx@, t),
                        },
                        Ok(()),
                    )
                }
            }
        },
        Transaction::Dispute { tx, .. } => {
            if m.txs.contains_key(tx@) {
                match m.txs[tx@] {
                    Transaction::Deposit { client: rc, tx: rtx, amount, disputed } => {
                        if disputed {
                            (m, Err(Error::InvalidTransaction))
                        } else {
                            let txs2 = m.txs.insert(
                                tx@,
                                Transaction::Deposit { client: rc, tx: rtx, amount, disputed: true },
                            );
                            let a = m.accounts[rc@];
                            if hold_ok(a, amount@ as nat) {
                                (
                                    LedgerModel {
                                        accounts: m.accounts.insert(
                                            rc@,
                                            hold_model(a, amount@ as nat),
                                        ),
                                        txs: txs2,
                                    },
                                    Ok(()),
                                )
                            } else {
                                (LedgerModel { accounts: m.accounts, txs: txs2 }, Ok(()))
                            }
                        }
                    },
                    _ => (m, Ok(())),
                }
            } else {
                (m, Ok(()))
            }
        },
        Transaction::Resolve { tx, .. } => {
            if m.txs.contains_key(tx@) {
                match m.txs[tx@] {
                    Transaction::Deposit { client: rc, tx: rtx, amount, disputed } => {
                        if !disputed {
                            (m, Err(Error::InvalidTransaction))
                        } else {
                            let txs2 = m.txs.insert(
                                tx@,
                                Transaction::Deposit {
                                    client: rc,
                                    tx: rtx,
                                    amount,
                                    disputed: false,
                                },
                            );
                            let a = m.accounts[rc@];
                            if release_ok(a, amount@ as nat) {
                                (
                                    LedgerModel {
                                        accounts: m.accounts.insert(
                                            rc@,
                                            release_model(a, amount@ as nat),
                                        ),
                                        txs: txs2,
                                    },
                                    Ok(()),
                                )
                            } else {
                                (LedgerModel { accounts: m.accounts, txs: txs2 }, Ok(()))
                            }
                        }
                    },
                    _ => (m, Ok(())),
                }
            } else {
                (m, Ok(()))
            }
        },
        Transaction::Chargeback { tx, .. } => {
            if m.txs.contains_key(tx@) {
                match m.txs[tx@] {
                    Transaction::Deposit { client: rc, tx: rtx, amount, disputed } => {
                        if !disputed {
                            (m, Err(Error::InvalidTransaction))
                        } else {
                            let txs2 = m.txs.insert(
                                tx@,
                                Transaction::Deposit {
                                    client: rc,
                                    tx: rtx,
                                    amount,
                                    disputed: false,
                                },
                            );
                            let a = m.accounts[rc@];
                            if chargeback_ok(a, amount@ as nat) {
                                (
                                    LedgerModel {
                                        accounts: m.accounts.insert(
                                            rc@,
                                            chargeback_model(a, amount@ as nat),
                                        ),
                                        txs: txs2,
                                    },
                                    Ok(()),
                                )
                            } else {
                                (
                                    LedgerModel { accounts: m.accounts, txs: txs2 },
                                    Err(Error::InsufficientHeldFunds),
                                )
                            }
                        }
                    },
                    _ => (m, Ok(())),
                }
            } else {
                (m, Ok(()))
            }
        },
    }
}

/// Every reachable engine state is well-formed: starting from a well-formed
/// state, each step keeps every account valid (balances non-negative by
/// construction and within the representation) and every deposit record
/// pointed at an existing account.
pub proof fn lemma_step_preserves_wf(m: LedgerModel, t: Transaction)
    requires
        ledger_wf(m),
    ensures
        ledger_wf(step(m, t).0),
{
}

/// A dispute followed by a resolve of the same transaction restores the
/// engine exactly: every balance, every lock flag and every record is as it
/// was before the dispute, and both steps report success.
pub proof fn lemma_dispute_then_resolve_restores(
    m: LedgerModel,
    c: ClientId,
    tx: TransactionId,
    rc: ClientId,
    rtx: TransactionId,
    amount: crate::currency::Currency,
)
    requires
        ledger_wf(m),
        m.txs.contains_key(tx@),
        m.txs[tx@] == (Transaction::Deposit { client: rc, tx: rtx, amount, disputed: false }),
        hold_ok(m.accounts[rc@], amount@),
    ensures
        ({
            let (m1, r1) = step(m, Transaction::Dispute { client: c, tx });
            let (m2, r2) = step(m1, Transaction::Resolve { client: c, tx });
            r1 == Ok::<(), Error>(()) && r2 == Ok::<(), Error>(()) && m2.accounts == m.accounts
                && m2.txs == m.txs
        }),
{
    let a = m.accounts[rc@];
    crate::account::lemma_hold_then_release(a, amount@ as nat);
    let (m1, r1) = step(m, Transaction::Dispute { client: c, tx });
    let (m2, r2) = step(m1, Transaction::Resolve { client: c, tx });
    assert(m2.accounts =~= m.accounts);
    assert(m2.txs =~= m.txs);
}

/// A dispute followed by a chargeback of the same transaction removes the
/// disputed amount from held funds exactly (held returns to its pre-dispute
/// value while available stays reduced by the amount), locks the account,
/// and both steps report success.
pub proof fn lemma_dispute_then_chargeback_zeroes(
    m: LedgerModel,
    c: ClientId,
    tx: TransactionId,
    rc: ClientId,
    rtx: TransactionId,
    amount: crate::currency::Currency,
)
    requires
        ledger_wf(m),
        m.txs.contains_key(tx@),
        m.txs[tx@] == (Transaction::Deposit { client: rc, tx: rtx, amount, disputed: false }),
        hold_ok(m.accounts[rc@], amount@),
    ensures
        ({
            let (m1, r1) = step(m, Transaction::Dispute { client: c, tx });
            let (m2, r2) = step(m1, Transaction::Chargeback { client: c, tx });
            r1 == Ok::<(), Error>(()) && r2 == Ok::<(), Error>(()) && m2.accounts[rc@]
                == (AccountModel {
                client: m.accounts[rc@].client,
                available: (m.accounts[rc@].available - amount@) as nat,
                held: m.accounts[rc@].held,
                locked: true,
            }) && (forall|k: u16|
                k != rc@ && m.accounts.contains_key(k) ==> step(
                    step(m, Transaction::Dispute { client: c, tx }).0,
                    Transaction::Chargeback { client: c, tx },
                ).0.accounts[k] == m.accounts[k])
        }),
{
    let a = m.accounts[rc@];
    crate::account::lemma_hold_then_chargeback(a, amount@ as nat);
}

/// A locked account never unlocks: whatever transaction the engine handles
/// next, every account that was locked stays locked (and stays present).
pub proof fn lemma_locked_is_monotonic(m: LedgerModel, t: Transaction, k: u16)
    requires
        ledger_wf(m),
        m.accounts.contains_key(k),
        m.accounts[k].locked,
    ensures
        step(m, t).0.accounts.contains_key(k),
        step(m, t).0.accounts[k].locked,
{
}

/// The engine: owns the account map and the dedup store of accepted
/// transactions, and replays one transaction at a time.
pub struct Transakt {
    accounts: HashMap<u16, Account>,
    transactions: HashMap<u32, Transaction>,
}

impl Transakt {
    /// The engine state as a mathematical value.
    pub closed spec fn model(&self) -> LedgerModel {
        LedgerModel {
            accounts: self.accounts@.map_values(|a: Account| a@),
            txs: self.transactions@,
        }
    }

    pub open spec fn wf(&self) -> bool {
        ledger_wf(self.model())
    }
}

impl Transakt {
    /// Handles one incoming transaction: dispatches on its kind, validates
    /// against the ledger, mutates the target account, and records the
    /// transaction or rejects it. A failure aborts only this transaction.
    pub fn execute_transaction(&mut self, transaction: Transaction) -> (r: Result<(), Error>)
        requires
            old(self).wf(),
        ensures
            final(self).wf(),
            final(self).model() == step(old(self).model(), transaction).0,
            r == step(old(self).model(), transaction).1,
    {
        let ghost pre = self.model();
        match transaction {
            Transaction::Deposit { client, tx, amount, .. } => {
                if self.transactions.contains_key(&tx.id()) {
                    return Err(Error::DuplicateTransaction(tx));
                }
                let mut account = match self.accounts.get(&client.id()) {
                    Some(a) => *a,
                    None => Account::new(client),
                };
                proof {
                    assert(account@ == account_or_new(pre, client));
                }
                let res = account.deposit(amount);
                self.accounts.insert(client.id(), account);
                proof {
                    assert(self.model().accounts =~= pre.accounts.insert(client@, account@));
                }
                match res {
                    Ok(_) => {
                        self.transactions.insert(tx.id(), transaction);
                        Ok(())
                    },
                    Err(e) => Err(e),
                }
            },
            Transaction::Withdrawal { client, tx, amount } => {
                if self.transactions.contains_key(&tx.id()) {
                    return Err(Error::DuplicateTransaction(tx));
                }
                let mut account = match self.accounts.get(&client.id()) {
                    Some(a) => *a,
                    None => Account::new(client),
                };
                proof {
                    assert(account@ == account_or_new(pre, client));
                }
                let res = account.withdraw(amount);
                self.accounts.insert(client.id(), account);
                proof {
                    assert(self.model().accounts =~= pre.accounts.insert(client@, account@));
                }
                match res {
                    Ok(_) => {
                        self.transactions.insert(tx.id(), transaction);
                        Ok(())
                    },
                    Err(e) => Err(e),
                }
            },
            Transaction::Dispute { tx, .. } => {
                let record = match self.transactions.get(&tx.id()) {
                    Some(t) => *t,
                    None => {
                        return Ok(());
                    },
                };
                match record {
                    Transaction::Deposit { client: rc, tx: rtx, amount, disputed } => {
                        if disputed {
                            return Err(Error::InvalidTransaction);
                        }
                        self.transactions.insert(
                            tx.id(),
                            Transaction::Deposit { client: rc, tx: rtx, amount, disputed: true },
                        );
                        let account_ref = self.accounts.get(&rc.id());
                        let mut account = *account_ref.unwrap();
                        let res = account.hold(amount);
                        self.accounts.insert(rc.id(), account);
                        proof {
                            assert(self.model().accounts =~= pre.accounts.insert(rc@, account@));
                            if !(res is Ok) {
                                assert(self.model().accounts =~= pre.accounts);
                            }
                        }
                        Ok(())
                    },
                    _ => Ok(()),
                }
            },
            Transaction::Resolve { tx, .. } => {
                let record = match self.transactions.get(&tx.id()) {
                    Some(t) => *t,
                    None => {
                        return Ok(());
                    },
                };
                match record {
                    Transaction::Deposit { client: rc, tx: rtx, amount, disputed } => {
                        if !disputed {
                            return Err(Error::InvalidTransaction);
                        }
                        self.transactions.insert(
                            tx.id(),
                            Transaction::Deposit { client: rc, tx: rtx, amount, disputed: false },
                        );
                        let account_ref = self.accounts.get(&rc.id());
                        let mut account = *account_ref.unwrap();
                        let res = account.release(amount);
                        self.accounts.insert(rc.id(), account);
                        proof {
                            assert(self.model().accounts =~= pre.accounts.insert(rc@, account@));
                            if !(res is Ok) {
                                assert(self.model().accounts =~= pre.accounts);
                            }
                        }
                        Ok(())
                    },
                    _ => Ok(()),
                }
            },
            Transaction::Chargeback { tx, .. } => {
                let record = match self.transactions.get(&tx.id()) {
                    Some(t) => *t,
                    None => {
                        return Ok(());
                    },
                };
                match record {
                    Transaction::Deposit { client: rc, tx: rtx, amount, disputed } => {
                        if !disputed {
                            return Err(Error::InvalidTransaction);
                        }
                        self.transactions.insert(
                            tx.id(),
                            Transaction::Deposit { client: rc, tx: rtx, amount, disputed: false },
                        );
                        let account_ref = self.accounts.get(&rc.id());
                        let mut account = *account_ref.unwrap();
                        let res = account.chargeback(amount);
                        self.accounts.insert(rc.id(), account);
                        proof {
                            assert(self.model().accounts =~= pre.accounts.insert(rc@, account@));
                            if !(res is Ok) {
                                assert(self.model().accounts =~= pre.accounts);
                            }
                        }
                        match res {
                            Ok(_) => Ok(()),
                            Err(e) => Err(e),
                        }
                    },
                    _ => Ok(()),
                }
            },
        }
    }
}

impl Default for Transakt {
    /// A fresh engine: no accounts, no recorded transactions.
    fn default() -> (r: Self)
        ensures
            r.wf(),
            r.model().accounts == Map::<u16, AccountModel>::empty(),
            r.model().txs == Map::<u32, Transaction>::empty(),
    {
        let r = Transakt { accounts: HashMap::new(), transactions: HashMap::new() };
        proof {
            assert(r.model().accounts =~= Map::<u16, AccountModel>::empty());
        }
        r
    }
}

impl Transakt {
    /// The account stored for `client`, if any.
    pub fn get_account(&self, client: ClientId) -> (r: Option<&Account>)
        ensures
            match r {
                Some(a) => self.model().accounts.contains_key(client@) && a@
                    == self.model().accounts[client@],
                None => !self.model().accounts.contains_key(client@),
            },
    {
        self.accounts.get(&client.id())
    }

    /// How many accounts have been created so far.
    pub fn accounts_count(&self) -> (r: usize)
        ensures
            r == self.model().accounts.len(),
    {
        proof {
            assert(self.model().accounts.dom() =~= self.accounts@.dom());
        }
        self.accounts.len()
    }
}

} // verus!
