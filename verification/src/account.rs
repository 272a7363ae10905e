//! Per-client balance state machine: available and held funds plus the
//! terminal `locked` flag, with checked, all-or-nothing transitions.

use vstd::prelude::*;
use crate::currency::{Currency, format_spec};
use crate::transaction::ClientId;
use crate::Error;

verus! {

/// One row of the final report: the client id, the three balances in
/// canonical decimal form, and the lock flag, in output order.
pub struct AccountRow {
    pub client: u16,
    pub available: String,
    pub held: String,
    pub total: String,
    pub locked: bool,
}

/// The mathematical state of one account: both balances as unbounded
/// non-negative integers, so non-negativity holds by construction.
pub struct AccountModel {
    pub client: u16,
    pub available: nat,
    pub held: nat,
    pub locked: bool,
}

/// Validity of an account model: both balances fit the representation.
/// The view of every `Account` satisfies this by construction.
pub open spec fn account_wf(a: AccountModel) -> bool {
    a.available <= u64::MAX && a.held <= u64::MAX
}

/// A hold moves `amount` from available into held; it is accepted when the
/// new held balance still fits the representation and the available balance
/// covers the amount.
pub open spec fn hold_ok(a: AccountModel, amount: nat) -> bool {
    a.held + amount <= u64::MAX && amount <= a.available
}

pub open spec fn hold_model(a: AccountModel, amount: nat) -> AccountModel {
    AccountModel {
        available: (a.available - amount) as nat,
        held: (a.held + amount) as nat,
        ..a
    }
}

/// A release moves `amount` from held back into available; it is accepted
/// when the held balance covers the amount and the new available balance
/// still fits the representation.
pub open spec fn release_ok(a: AccountModel, amount: nat) -> bool {
    amount <= a.held && a.available + amount <= u64::MAX
}

pub open spec fn release_model(a: AccountModel, amount: nat) -> AccountModel {
    AccountModel {
        available: (a.available + amount) as nat,
        held: (a.held - amount) as nat,
        ..a
    }
}

/// A chargeback removes `amount` from held and locks the account; it is
/// accepted when the held balance covers the amount.
pub open spec fn chargeback_ok(a: AccountModel, amount: nat) -> bool {
    amount <= a.held
}

pub open spec fn chargeback_model(a: AccountModel, amount: nat) -> AccountModel {
    AccountModel { held: (a.held - amount) as nat, locked: true, ..a }
}

/// A hold followed by a release of the same amount always goes through and
/// restores the account exactly to its state before the hold.
pub proof fn lemma_hold_then_release(a: AccountModel, amount: nat)
    requires
        account_wf(a),
        hold_ok(a, amount),
    ensures
        release_ok(hold_model(a, amount), amount),
        release_model(hold_model(a, amount), amount) == a,
{
}

/// A hold followed by a chargeback of the same amount always goes through,
/// removes exactly the held amount (held returns to its pre-hold value while
/// available stays reduced), and leaves the account locked.
pub proof fn lemma_hold_then_chargeback(a: AccountModel, amount: nat)
    requires
        hold_ok(a, amount),
    ensures
        chargeback_ok(hold_model(a, amount), amount),
        chargeback_model(hold_model(a, amount), amount) == (AccountModel {
            client: a.client,
            available: (a.available - amount) as nat,
            held: a.held,
            locked: true,
        }),
{
}

/// Balance state of one client, created lazily on first reference and never
/// destroyed. `locked` is monotonic: once set it never returns to false.
#[derive(Copy, Clone)]
pub struct Account {
    client: ClientId,
    available: Currency,
    held: Currency,
    locked: bool,
}

impl View for Account {
    type V = AccountModel;

    closed spec fn view(&self) -> AccountModel {
        AccountModel {
            client: self.client@,
            available: self.available@,
            held: self.held@,
            locked: self.locked,
        }
    }
}

impl Account {
    /// A fresh account: both balances zero, unlocked.
    pub fn new(client: ClientId) -> (r: Account)
        ensures
            r@ == (AccountModel { client: client@, available: 0, held: 0, locked: false }),
    {
        Self {
            client,
            available: Currency::default(),
            held: Currency::default(),
            locked: false,
        }
    }

    pub fn available(&self) -> (r: &Currency)
        ensures
            r@ == self@.available,
    {
        &self.available
    }

    pub fn held(&self) -> (r: &Currency)
        ensures
            r@ == self@.held,
    {
        &self.held
    }

    /// The sum of available and held funds, or `None` when the sum does not
    /// fit the representation.
    pub fn total(&self) -> (r: Option<Currency>)
        ensures
            r is Some <==> self@.available + self@.held <= u64::MAX,
            r matches Some(c) ==> c@ == self@.available + self@.held,
    {
        self.available.checked_add(self.held)
    }

    /// Locks the account; irreversible for the lifetime of the account.
    pub fn lock(&mut self)
        ensures
            final(self)@ == (AccountModel { locked: true, ..old(self)@ }),
    {
        self.locked = true;
    }

    pub fn is_locked(&self) -> (r: bool)
        ensures
            r == self@.locked,
    {
        self.locked
    }

    /// Adds `amount` to available funds; rejected on a locked account, and
    /// on arithmetic overflow nothing changes.
    pub fn deposit(&mut self, amount: Currency) -> (r: Result<(), Error>)
        ensures
            old(self)@.locked ==> r == Err::<(), Error>(Error::AccountLocked) && *final(self)
                == *old(self),
            !old(self)@.locked && old(self)@.available + amount@ > u64::MAX ==> r == Err::<
                (),
                Error,
            >(Error::Overflow) && *final(self) == *old(self),
            !old(self)@.locked && old(self)@.available + amount@ <= u64::MAX ==> r == Ok::<
                (),
                Error,
            >(()) && final(self)@ == (AccountModel {
                available: (old(self)@.available + amount@) as nat,
                ..old(self)@
            }),
            old(self)@.locked ==> final(self)@.locked,
    {
        if !self.is_locked() {
            let sum = match self.available.checked_add(amount) {
                Some(s) => s,
                None => {
                    return Err(Error::Overflow);
                },
            };
            self.available = sum;
            Ok(())
        } else {
            Err(Error::AccountLocked)
        }
    }

    /// Removes `amount` from available funds; rejected on a locked account,
    /// and rejected as insufficient when the amount exceeds what is
    /// available, in which case nothing changes.
    pub fn withdraw(&mut self, amount: Currency) -> (r: Result<(), Error>)
        ensures
            old(self)@.locked ==> r == Err::<(), Error>(Error::AccountLocked) && *final(self)
                == *old(self),
            !old(self)@.locked && amount@ > old(self)@.available ==> r == Err::<(), Error>(
                Error::InsufficientFunds,
            ) && *final(self) == *old(self),
            !old(self)@.locked && amount@ <= old(self)@.available ==> r == Ok::<(), Error>(())
                && final(self)@ == (AccountModel {
                available: (old(self)@.available - amount@) as nat,
                ..old(self)@
            }),
            old(self)@.locked ==> final(self)@.locked,
    {
        if !self.is_locked() {
            let diff = match self.available.checked_sub(amount) {
                Some(d) => d,
                None => {
                    return Err(Error::InsufficientFunds);
                },
            };
            self.available = diff;
            Ok(())
        } else {
            Err(Error::AccountLocked)
        }
    }

    /// Moves `amount` from available into held as a single atomic unit: both
    /// checks pass before either field is written, so a failure leaves the
    /// account unchanged.
    pub fn hold(&mut self, amount: Currency) -> (r: Result<(), Error>)
        ensures
            hold_ok(old(self)@, amount@ as nat) ==> r == Ok::<(), Error>(()) && final(self)@
                == hold_model(old(self)@, amount@ as nat),
            !hold_ok(old(self)@, amount@ as nat) ==> r == Err::<(), Error>(Error::Overflow)
                && *final(self) == *old(self),
            old(self)@.locked ==> final(self)@.locked,
    {
        let sum = match self.held.checked_add(amount) {
            Some(s) => s,
            None => {
                return Err(Error::Overflow);
            },
        };
        let diff = match self.available.checked_sub(amount) {
            Some(d) => d,
            None => {
                return Err(Error::Overflow);
            },
        };
        self.held = sum;
        self.available = diff;
        Ok(())
    }

    /// Moves `amount` from held back into available, with the same atomic
    /// check-then-commit discipline as `hold`. A held balance short of the
    /// amount signals an internal-consistency fault, not a user error.
    pub fn release(&mut self, amount: Currency) -> (r: Result<(), Error>)
        ensures
            release_ok(old(self)@, amount@ as nat) ==> r == Ok::<(), Error>(()) && final(self)@
                == release_model(old(self)@, amount@ as nat),
            amount@ > old(self)@.held ==> r == Err::<(), Error>(Error::InsufficientHeldFunds)
                && *final(self) == *old(self),
            amount@ <= old(self)@.held && old(self)@.available + amount@ > u64::MAX ==> r
                == Err::<(), Error>(Error::Overflow) && *final(self) == *old(self),
            old(self)@.locked ==> final(self)@.locked,
    {
        let diff = match self.held.checked_sub(amount) {
            Some(d) => d,
            None => {
                return Err(Error::InsufficientHeldFunds);
            },
        };
        let sum = match self.available.checked_add(amount) {
            Some(s) => s,
            None => {
                return Err(Error::Overflow);
            },
        };
        self.held = diff;
        self.available = sum;
        Ok(())
    }

    /// Removes `amount` from held funds and locks the account as a side
    /// effect: the terminal transition, permitted even on a locked account.
    pub fn chargeback(&mut self, amount: Currency) -> (r: Result<(), Error>)
        ensures
            chargeback_ok(old(self)@, amount@ as nat) ==> r == Ok::<(), Error>(())
                && final(self)@ == chargeback_model(old(self)@, amount@ as nat),
            !chargeback_ok(old(self)@, amount@ as nat) ==> r == Err::<(), Error>(
                Error::InsufficientHeldFunds,
            ) && *final(self) == *old(self),
            old(self)@.locked ==> final(self)@.locked,
    {
        let diff = match self.held.checked_sub(amount) {
            Some(d) => d,
            None => {
                return Err(Error::InsufficientHeldFunds);
            },
        };
        self.held = diff;
        self.lock();
        Ok(())
    }

    /// Encodes the account as a report row, read-only: every balance in
    /// canonical decimal form, with the total computed on the way out. Fails
    /// exactly when the total does not fit the representation.
    pub fn to_row(&self) -> (r: Result<AccountRow, Error>)
        ensures
            match r {
                Ok(row) => self@.available + self@.held <= u64::MAX && row.client == self@.client
                    && row.available@ == format_spec(self@.available) && row.held@ == format_spec(
                    self@.held,
                ) && row.total@ == format_spec((self@.available + self@.held) as nat) && row.locked
                    == self@.locked,
                Err(e) => e == Error::Overflow && self@.available + self@.held > u64::MAX,
            },
    {
        let total = match self.total() {
            Some(t) => t,
            None => {
                return Err(Error::Overflow);
            },
        };
        Ok(
            AccountRow {
                client: self.client.id(),
                available: self.available.format(),
                held: self.held.format(),
                total: total.format(),
                locked: self.locked,
            },
        )
    }
}

} // verus!
