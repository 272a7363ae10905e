//! Transaction identifiers, the typed transaction variants, and the raw input
//! row from which a typed transaction is built.

use vstd::prelude::*;
use crate::currency::Currency;
use crate::Error;

verus! {

/// Identifies the account a transaction targets; it indexes the account map.
#[derive(Debug, PartialEq, Eq, Structural, Hash, Copy, Clone)]
pub struct ClientId {
    id: u16,
}

impl View for ClientId {
    type V = u16;

    closed spec fn view(&self) -> u16 {
        self.id
    }
}

impl ClientId {
    pub fn new(id: u16) -> (r: Self)
        ensures
            r@ == id,
    {
        Self { id }
    }

    pub fn id(&self) -> (r: u16)
        ensures
            r == self@,
    {
        self.id
    }
}

/// Identifies one transaction; an id is accepted at most once over a run.
#[derive(Debug, PartialEq, Eq, Structural, Hash, Copy, Clone)]
pub struct TransactionId {
    id: u32,
}

impl View for TransactionId {
    type V = u32;

    closed spec fn view(&self) -> u32 {
        self.id
    }
}

impl TransactionId {
    pub fn new(id: u32) -> (r: Self)
        ensures
            r@ == id,
    {
        Self { id }
    }

    pub fn id(&self) -> (r: u32)
        ensures
            r == self@,
    {
        self.id
    }
}

/// One typed transaction. Only deposits carry the mutable `disputed` flag;
/// all other kinds are recorded for deduplication only.
#[derive(Debug, Copy, Clone)]
pub enum Transaction {
    Deposit { client: ClientId, tx: TransactionId, amount: Currency, disputed: bool },
    Withdrawal { client: ClientId, tx: TransactionId, amount: Currency },
    Dispute { client: ClientId, tx: TransactionId },
    Resolve { client: ClientId, tx: TransactionId },
    Chargeback { client: ClientId, tx: TransactionId },
}

/// The transaction kind as it appears in an input row, before the row's
/// payload has been checked against the kind.
#[derive(Debug, Copy, Clone)]
pub enum TransactionType {
    Deposit,
    Withdrawal,
    Dispute,
    Resolve,
    Chargeback,
}

/// A parsed input row: a kind plus identifiers, with the amount present or
/// absent regardless of whether the kind expects one.
#[derive(Debug, Copy, Clone)]
pub struct TransactionRow {
    pub tx_type: TransactionType,
    pub client: ClientId,
    pub tx: TransactionId,
    pub amount: Option<Currency>,
}

/// What a row yields: a typed transaction when the amount is present exactly
/// for deposits and withdrawals, and a parse error otherwise.
pub open spec fn row_transaction(t: TransactionRow) -> Result<Transaction, Error> {
    match (t.tx_type, t.amount) {
        (TransactionType::Deposit, Some(amount)) => Ok(
            Transaction::Deposit { client: t.client, tx: t.tx, amount, disputed: false },
        ),
        (TransactionType::Withdrawal, Some(amount)) => Ok(
            Transaction::Withdrawal { client: t.client, tx: t.tx, amount },
        ),
        (TransactionType::Dispute, None) => Ok(
            Transaction::Dispute { client: t.client, tx: t.tx },
        ),
        (TransactionType::Resolve, None) => Ok(
            Transaction::Resolve { client: t.client, tx: t.tx },
        ),
        (TransactionType::Chargeback, None) => Ok(
            Transaction::Chargeback { client: t.client, tx: t.tx },
        ),
        _ => Err(Error::TransactionParseError),
    }
}

impl Transaction {
    /// Builds a typed transaction from a raw row, rejecting a row whose
    /// amount is present where none is expected or absent where one is
    /// required.
    pub fn try_from_row(t: TransactionRow) -> (r: Result<Transaction, Error>)
        ensures
            r == row_transaction(t),
    {
        match (t.tx_type, t.amount) {
            (TransactionType::Deposit, Some(amount)) => Ok(
                Transaction::Deposit { client: t.client, tx: t.tx, amount, disputed: false },
            ),
            (TransactionType::Withdrawal, Some(amount)) => Ok(
                Transaction::Withdrawal { client: t.client, tx: t.tx, amount },
            ),
            (TransactionType::Dispute, None) => Ok(
                Transaction::Dispute { client: t.client, tx: t.tx },
            ),
            (TransactionType::Resolve, None) => Ok(
                Transaction::Resolve { client: t.client, tx: t.tx },
            ),
            (TransactionType::Chargeback, None) => Ok(
                Transaction::Chargeback { client: t.client, tx: t.tx },
            ),
            _ => Err(Error::TransactionParseError),
        }
    }
}

} // verus!
