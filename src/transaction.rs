use vstd::prelude::*;

verus! {

/// Identifies a client and its account.
pub type ClientId = u32;

/// Identifies a deposit or a withdrawal.
pub type TxId = u32;

/// The state of one client's funds. Money is held as a fixed-point decimal:
/// a count of ten-thousandths of a currency unit, so that `12.5` is `125_000`.
#[derive(Debug, Clone, Copy, PartialEq, Eq, Structural)]
pub struct ClientAccount {
    pub total: i64,
    pub available: i64,
    pub held: i64,
    pub locked: bool,
}

impl ClientAccount {
    /// The balances agree: `total` is `available + held`.
    pub open spec fn wf(&self) -> bool {
        self.total == self.available + self.held
    }

    /// An empty, unlocked account.
    pub fn new() -> (r: Self)
        ensures
            r.total == 0,
            r.available == 0,
            r.held == 0,
            !r.locked,
    {
        ClientAccount { total: 0, available: 0, held: 0, locked: false }
    }
}

/// The kinds of record in the input stream.
#[derive(Debug, Clone, Copy, PartialEq, Eq, Structural)]
pub enum TransactionType {
    Deposit,
    Withdrawal,
    Dispute,
    Resolve,
    Chargeback,
}

/// One record of the input stream, its amount in ten-thousandths as in
/// `ClientAccount`. `amount` is given for deposits and
/// withdrawals; disputes, resolves and chargebacks refer to the deposit
/// whose `tx` they carry.
#[derive(Debug, Clone, Copy, PartialEq, Eq, Structural)]
pub struct Transaction {
    pub kind: TransactionType,
    pub client: ClientId,
    pub tx: TxId,
    pub amount: Option<i64>,
}

} // verus!
