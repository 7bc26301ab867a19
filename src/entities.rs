use vstd::prelude::*;

verus! {

/// Number of amount units in one whole currency unit: amounts are fixed-point
/// with four decimal places.
pub const AMOUNT_SCALE: i64 = 10000;

/// One record of the input stream.
///
/// `kind` is the record's type as written in the input (`deposit`, `withdrawal`,
/// `dispute`, `resolve`, `chargeback`); `amount`, in units of `1 / AMOUNT_SCALE`,
/// matters only for deposits and withdrawals.
#[derive(Debug)]
pub struct Transaction {
    pub kind: String,
    pub client: u16,
    pub tx: u32,
    pub amount: Option<i64>,
}

/// The balances of one client. Amounts are in units of `1 / AMOUNT_SCALE`.
#[derive(Debug, Clone, Copy, PartialEq, Eq, Structural)]
pub struct ClientAccount {
    pub client: u16,
    pub available_amount: i64,
    pub held_amount: i64,
    pub total_amount: i64,
    pub locked: bool,
}

impl ClientAccount {
    /// The state of an account when it is first created.
    pub open spec fn fresh(client: u16) -> ClientAccount {
        ClientAccount {
            client,
            available_amount: 0,
            held_amount: 0,
            total_amount: 0,
            locked: false,
        }
    }

    /// `total == available + held`, exactly.
    pub open spec fn balanced(self) -> bool {
        self.total_amount == self.available_amount + self.held_amount
    }

    pub fn new(client: u16) -> (r: ClientAccount)
        ensures
            r == ClientAccount::fresh(client),
    {
        ClientAccount {
            client,
            available_amount: 0,
            held_amount: 0,
            total_amount: 0,
            locked: false,
        }
    }
}

/// What a record asks the ledger to do.
#[derive(Debug, Clone, Copy, PartialEq, Eq, Structural)]
pub enum TransactionKind {
    Deposit,
    Withdrawal,
    Dispute,
    Resolve,
    Chargeback,
    Unknown,
}

/// The kind that a record's type name stands for.
pub open spec fn kind_of(name: Seq<char>) -> TransactionKind {
    if name == "deposit"@ {
        TransactionKind::Deposit
    } else if name == "withdrawal"@ {
        TransactionKind::Withdrawal
    } else if name == "dispute"@ {
        TransactionKind::Dispute
    } else if name == "resolve"@ {
        TransactionKind::Resolve
    } else if name == "chargeback"@ {
        TransactionKind::Chargeback
    } else {
        TransactionKind::Unknown
    }
}

fn names(s: &String, lit: &str) -> (r: bool)
    ensures
        r == (s@ == lit@),
{
    let l = lit.to_owned();
    *s == l
}

impl TransactionKind {
    /// Reads a record's type name; names are lower case and matched exactly.
    pub fn from_name(name: &String) -> (r: TransactionKind)
        ensures
            r == kind_of(name@),
    {
        if names(name, "deposit") {
            TransactionKind::Deposit
        } else if names(name, "withdrawal") {
            TransactionKind::Withdrawal
        } else if names(name, "dispute") {
            TransactionKind::Dispute
        } else if names(name, "resolve") {
            TransactionKind::Resolve
        } else if names(name, "chargeback") {
            TransactionKind::Chargeback
        } else {
            TransactionKind::Unknown
        }
    }
}

} // verus!
