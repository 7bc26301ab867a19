use vstd::prelude::*;
use std::collections::HashMap;
use crate::entities::{kind_of, ClientAccount, Transaction, TransactionKind};

verus! {

/// The engine's record of an accepted deposit or withdrawal, kept so that the
/// transaction can later be disputed.
#[derive(Debug, Clone, Copy, PartialEq, Eq, Structural)]
pub struct TransactionState {
    pub client: u16,
    pub amount: i64,
    pub disputed: bool,
}

/// Why a record left the ledger unchanged.
#[derive(Debug, Clone, Copy, PartialEq, Eq, Structural)]
pub enum SkipReason {
    /// The record's type is none of the five known kinds.
    UnknownKind,
    /// A withdrawal, or a dispute step, names a client without an account.
    UnknownAccount,
    /// Deposits and withdrawals on a locked account are refused.
    AccountLocked,
    /// A withdrawal asks for more than is available.
    InsufficientFunds,
    /// No open deposit or withdrawal has this transaction id.
    UnknownTransaction,
    /// The referenced transaction belongs to another client.
    ClientMismatch,
    /// The transaction is disputed already.
    AlreadyDisputed,
    /// Resolve and chargeback need a disputed transaction.
    NotDisputed,
    /// A balance would leave the range of `i64`.
    Overflow,
}

/// What became of one record.
#[derive(Debug, Clone, Copy, PartialEq, Eq, Structural)]
pub enum Outcome {
    Applied,
    Skipped(SkipReason),
}

/// The mathematical state of the ledger: accounts by client id and open
/// deposits/withdrawals by transaction id.
pub ghost struct Ledger {
    pub accounts: Map<u16, ClientAccount>,
    pub transactions: Map<u32, TransactionState>,
}

pub open spec fn in_i64(x: int) -> bool {
    i64::MIN <= x <= i64::MAX
}

impl Ledger {
    pub open spec fn empty() -> Ledger {
        Ledger { accounts: Map::empty(), transactions: Map::empty() }
    }

    /// Every account has `total == available + held`.
    pub open spec fn balanced(self) -> bool {
        forall|c: u16| self.accounts.contains_key(c) ==> (#[trigger] self.accounts[c]).balanced()
    }

    /// Accounts are filed under their own client id, hold `total == available + held`,
    /// and every open transaction belongs to an existing account.
    pub open spec fn well_formed(self) -> bool {
        &&& self.balanced()
        &&& forall|c: u16| self.accounts.contains_key(c) ==> (#[trigger] self.accounts[c]).client == c
        &&& forall|t: u32|
            self.transactions.contains_key(t) ==> self.accounts.contains_key(
                (#[trigger] self.transactions[t]).client,
            )
    }

    /// The account a deposit credits: the existing one, or a fresh one.
    pub open spec fn account_or_fresh(self, client: u16) -> ClientAccount {
        if self.accounts.contains_key(client) {
            self.accounts[client]
        } else {
            ClientAccount::fresh(client)
        }
    }

    pub open spec fn deposit(self, tx: u32, client: u16, amount: i64) -> (Ledger, Outcome) {
        let a = self.account_or_fresh(client);
        if a.locked {
            (self, Outcome::Skipped(SkipReason::AccountLocked))
        } else if !in_i64(a.available_amount + amount) || !in_i64(a.total_amount + amount) {
            (self, Outcome::Skipped(SkipReason::Overflow))
        } else {
            let na = ClientAccount {
                client: a.client,
                available_amount: (a.available_amount + amount) as i64,
                held_amount: a.held_amount,
                total_amount: (a.total_amount + amount) as i64,
                locked: a.locked,
            };
            (
                Ledger {
                    accounts: self.accounts.insert(client, na),
                    transactions: self.transactions.insert(
                        tx,
                        TransactionState { client, amount, disputed: false },
                    ),
                },
                Outcome::Applied,
            )
        }
    }

    pub open spec fn withdraw(self, tx: u32, client: u16, amount: i64) -> (Ledger, Outcome) {
        if !self.accounts.contains_key(client) {
            (self, Outcome::Skipped(SkipReason::UnknownAccount))
        } else {
            let a = self.accounts[client];
            if a.locked {
                (self, Outcome::Skipped(SkipReason::AccountLocked))
            } else if a.available_amount < amount {
                (self, Outcome::Skipped(SkipReason::InsufficientFunds))
            } else if !in_i64(a.available_amount - amount) || !in_i64(a.total_amount - amount) {
                (self, Outcome::Skipped(SkipReason::Overflow))
            } else {
                let na = ClientAccount {
                    client: a.client,
                    available_amount: (a.available_amount - amount) as i64,
                    held_amount: a.held_amount,
                    total_amount: (a.total_amount - amount) as i64,
                    locked: a.locked,
                };
                (
                    Ledger {
                        accounts: self.accounts.insert(client, na),
                        transactions: self.transactions.insert(
                            tx,
                            TransactionState { client, amount, disputed: false },
                        ),
                    },
                    Outcome::Applied,
                )
            }
        }
    }

    /// The checks shared by dispute, resolve and chargeback: the transaction is
    /// open, belongs to `client`, is (`disputed`) or is not (`!disputed`) under
    /// dispute, and its client has an account.
    pub open spec fn lifecycle_check(self, tx: u32, client: u16, disputed: bool) -> Option<
        SkipReason,
    > {
        if !self.transactions.contains_key(tx) {
            Some(SkipReason::UnknownTransaction)
        } else if self.transactions[tx].client != client {
            Some(SkipReason::ClientMismatch)
        } else if self.transactions[tx].disputed != disputed {
            if disputed {
                Some(SkipReason::NotDisputed)
            } else {
                Some(SkipReason::AlreadyDisputed)
            }
        } else if !self.accounts.contains_key(client) {
            Some(SkipReason::UnknownAccount)
        } else {
            None
        }
    }

    pub open spec fn dispute(self, tx: u32, client: u16) -> (Ledger, Outcome) {
        match self.lifecycle_check(tx, client, false) {
            Some(reason) => (self, Outcome::Skipped(reason)),
            None => {
                let r = self.transactions[tx];
                let a = self.accounts[client];
                if !in_i64(a.available_amount - r.amount) || !in_i64(a.held_amount + r.amount) {
                    (self, Outcome::Skipped(SkipReason::Overflow))
                } else {
                    let na = ClientAccount {
                        client: a.client,
                        available_amount: (a.available_amount - r.amount) as i64,
                        held_amount: (a.held_amount + r.amount) as i64,
                        total_amount: a.total_amount,
                        locked: a.locked,
                    };
                    (
                        Ledger {
                            accounts: self.accounts.insert(client, na),
                            transactions: self.transactions.insert(
                                tx,
                                TransactionState { client: r.client, amount: r.amount, disputed: true },
                            ),
                        },
                        Outcome::Applied,
                    )
                }
            },
        }
    }

    pub open spec fn resolve(self, tx: u32, client: u16) -> (Ledger, Outcome) {
        match self.lifecycle_check(tx, client, true) {
            Some(reason) => (self, Outcome::Skipped(reason)),
            None => {
                let r = self.transactions[tx];
                let a = self.accounts[client];
                if !in_i64(a.available_amount + r.amount) || !in_i64(a.held_amount - r.amount) {
                    (self, Outcome::Skipped(SkipReason::Overflow))
                } else {
                    let na = ClientAccount {
                        client: a.client,
                        available_amount: (a.available_amount + r.amount) as i64,
                        held_amount: (a.held_amount - r.amount) as i64,
                        total_amount: a.total_amount,
                        locked: a.locked,
                    };
                    (
                        Ledger {
                            accounts: self.accounts.insert(client, na),
                            transactions: self.transactions.remove(tx),
                        },
                        Outcome::Applied,
                    )
                }
            },
        }
    }

    pub open spec fn chargeback(self, tx: u32, client: u16) -> (Ledger, Outcome) {
        match self.lifecycle_check(tx, client, true) {
            Some(reason) => (self, Outcome::Skipped(reason)),
            None => {
                let r = self.transactions[tx];
                let a = self.accounts[client];
                if !in_i64(a.total_amount - r.amount) || !in_i64(a.held_amount - r.amount) {
                    (self, Outcome::Skipped(SkipReason::Overflow))
                } else {
                    let na = ClientAccount {
                        client: a.client,
                        available_amount: a.available_amount,
                        held_amount: (a.held_amount - r.amount) as i64,
                        total_amount: (a.total_amount - r.amount) as i64,
                        locked: true,
                    };
                    (
                        Ledger {
                            accounts: self.accounts.insert(client, na),
                            transactions: self.transactions.remove(tx),
                        },
                        Outcome::Applied,
                    )
                }
            },
        }
    }
}

/// The amount a record carries; a missing amount counts as zero.
pub open spec fn amount_of(t: Transaction) -> i64 {
    match t.amount {
        Some(a) => a,
        None => 0,
    }
}

/// The ledger after one record, and what became of the record.
pub open spec fn apply(s: Ledger, t: Transaction) -> (Ledger, Outcome) {
    match kind_of(t.kind@) {
        TransactionKind::Deposit => s.deposit(t.tx, t.client, amount_of(t)),
        TransactionKind::Withdrawal => s.withdraw(t.tx, t.client, amount_of(t)),
        TransactionKind::Dispute => s.dispute(t.tx, t.client),
        TransactionKind::Resolve => s.resolve(t.tx, t.client),
        TransactionKind::Chargeback => s.chargeback(t.tx, t.client),
        TransactionKind::Unknown => (s, Outcome::Skipped(SkipReason::UnknownKind)),
    }
}

/// The ledger after a sequence of records, applied in order.
pub open spec fn run(s: Ledger, ts: Seq<Transaction>) -> Ledger
    decreases ts.len(),
{
    if ts.len() == 0 {
        s
    } else {
        apply(run(s, ts.drop_last()), ts.last()).0
    }
}

pub(crate) proof fn lemma_deposit_well_formed(s: Ledger, tx: u32, client: u16, amount: i64)
    requires
        s.well_formed(),
    ensures
        s.deposit(tx, client, amount).0.well_formed(),
{
    let n = s.deposit(tx, client, amount).0;
    assert(s.account_or_fresh(client).balanced());
    assert forall|c: u16| n.accounts.contains_key(c) implies (#[trigger] n.accounts[c]).balanced() && n.accounts[c].client == c by {
        if c != client {
            assert(s.accounts[c].balanced());
        }
    }
}

pub(crate) proof fn lemma_withdraw_well_formed(s: Ledger, tx: u32, client: u16, amount: i64)
    requires
        s.well_formed(),
    ensures
        s.withdraw(tx, client, amount).0.well_formed(),
{
    let n = s.withdraw(tx, client, amount).0;
    assert forall|c: u16| n.accounts.contains_key(c) implies (#[trigger] n.accounts[c]).balanced() && n.accounts[c].client == c by {
        assert(s.accounts[c].balanced());
    }
}

pub(crate) proof fn lemma_dispute_well_formed(s: Ledger, tx: u32, client: u16)
    requires
        s.well_formed(),
    ensures
        s.dispute(tx, client).0.well_formed(),
{
    let n = s.dispute(tx, client).0;
    assert forall|c: u16| n.accounts.contains_key(c) implies (#[trigger] n.accounts[c]).balanced() && n.accounts[c].client == c by {
        assert(s.accounts[c].balanced());
    }
    assert forall|t: u32| n.transactions.contains_key(t) implies n.accounts.contains_key(
        (#[trigger] n.transactions[t]).client,
    ) by {
        if t != tx {
            assert(s.accounts.contains_key(s.transactions[t].client));
        }
    }
}

pub(crate) proof fn lemma_resolve_well_formed(s: Ledger, tx: u32, client: u16)
    requires
        s.well_formed(),
    ensures
        s.resolve(tx, client).0.well_formed(),
{
    let n = s.resolve(tx, client).0;
    assert forall|c: u16| n.accounts.contains_key(c) implies (#[trigger] n.accounts[c]).balanced() && n.accounts[c].client == c by {
        assert(s.accounts[c].balanced());
    }
    assert forall|t: u32| n.transactions.contains_key(t) implies n.accounts.contains_key(
        (#[trigger] n.transactions[t]).client,
    ) by {
        assert(s.accounts.contains_key(s.transactions[t].client));
    }
}

pub(crate) proof fn lemma_chargeback_well_formed(s: Ledger, tx: u32, client: u16)
    requires
        s.well_formed(),
    ensures
        s.chargeback(tx, client).0.well_formed(),
{
    let n = s.chargeback(tx, client).0;
    assert forall|c: u16| n.accounts.contains_key(c) implies (#[trigger] n.accounts[c]).balanced() && n.accounts[c].client == c by {
        assert(s.accounts[c].balanced());
    }
    assert forall|t: u32| n.transactions.contains_key(t) implies n.accounts.contains_key(
        (#[trigger] n.transactions[t]).client,
    ) by {
        assert(s.accounts.contains_key(s.transactions[t].client));
    }
}

proof fn lemma_push_fresh(ids: Seq<u16>, c: u16)
    requires
        ids.no_duplicates(),
        !ids.contains(c),
    ensures
        ids.push(c).no_duplicates(),
        forall|x: u16| #[trigger] ids.push(c).contains(x) <==> (ids.contains(x) || x == c),
{
    let p = ids.push(c);
    assert forall|i: int, j: int| 0 <= i < j < p.len() implies p[i] != p[j] by {
        if j == ids.len() {
            assert(ids[i] == p[i]);
        }
    }
    assert forall|x: u16| #[trigger] p.contains(x) <==> (ids.contains(x) || x == c) by {
        if p.contains(x) {
            let i = choose|i: int| 0 <= i < p.len() && p[i] == x;
            if i < ids.len() {
                assert(ids[i] == x);
            }
        }
        if ids.contains(x) {
            let i = choose|i: int| 0 <= i < ids.len() && ids[i] == x;
            assert(p[i] == x);
        }
        if x == c {
            assert(p[ids.len() as int] == x);
        }
    }
}

/// Holds all account and transaction state and applies records one at a time.
pub struct PaymentEngine {
    accounts: HashMap<u16, ClientAccount>,
    transactions: HashMap<u32, TransactionState>,
    /// Client ids in the order their accounts were created.
    clients: Vec<u16>,
}

impl View for PaymentEngine {
    type V = Ledger;

    closed spec fn view(&self) -> Ledger {
        Ledger { accounts: self.accounts@, transactions: self.transactions@ }
    }
}

impl PaymentEngine {
    /// The engine's internal invariant: the ledger is well formed and `clients`
    /// lists each account's id exactly once.
    pub closed spec fn wf(&self) -> bool {
        &&& self@.well_formed()
        &&& self.clients@.no_duplicates()
        &&& forall|c: u16| self.accounts@.contains_key(c) <==> self.clients@.contains(c)
    }

    pub fn new() -> (r: PaymentEngine)
        ensures
            r.wf(),
            r@ == Ledger::empty(),
    {
        PaymentEngine { accounts: HashMap::new(), transactions: HashMap::new(), clients: Vec::new() }
    }

    fn deposit(&mut self, transaction_id: u32, client_id: u16, amount: i64) -> (r: Outcome)
        requires
            old(self).wf(),
        ensures
            final(self).wf(),
            (final(self)@, r) == old(self)@.deposit(transaction_id, client_id, amount),
    {
        let (current, is_new) = match self.accounts.get(&client_id) {
            Some(a) => (*a, false),
            None => (ClientAccount::new(client_id), true),
        };
        if current.locked {
            return Outcome::Skipped(SkipReason::AccountLocked);
        }
        let available = match current.available_amount.checked_add(amount) {
            Some(v) => v,
            None => return Outcome::Skipped(SkipReason::Overflow),
        };
        let total = match current.total_amount.checked_add(amount) {
            Some(v) => v,
            None => return Outcome::Skipped(SkipReason::Overflow),
        };
        let ghost old_clients = self.clients@;
        if is_new {
            self.clients.push(client_id);
            proof {
                lemma_push_fresh(old_clients, client_id);
            }
        }
        self.accounts.insert(
            client_id,
            ClientAccount {
                client: current.client,
                available_amount: available,
                held_amount: current.held_amount,
                total_amount: total,
                locked: current.locked,
            },
        );
        self.transactions.insert(
            transaction_id,
            TransactionState { client: client_id, amount, disputed: false },
        );
        proof {
            lemma_deposit_well_formed(old(self)@, transaction_id, client_id, amount);
        }
        Outcome::Applied
    }

    fn withdraw(&mut self, transaction_id: u32, client_id: u16, amount: i64) -> (r: Outcome)
        requires
            old(self).wf(),
        ensures
            final(self).wf(),
            (final(self)@, r) == old(self)@.withdraw(transaction_id, client_id, amount),
    {
        let current = match self.accounts.get(&client_id) {
            Some(a) => *a,
            None => return Outcome::Skipped(SkipReason::UnknownAccount),
        };
        if current.locked {
            return Outcome::Skipped(SkipReason::AccountLocked);
        }
        if current.available_amount < amount {
            return Outcome::Skipped(SkipReason::InsufficientFunds);
        }
        let available = match current.available_amount.checked_sub(amount) {
            Some(v) => v,
            None => return Outcome::Skipped(SkipReason::Overflow),
        };
        let total = match current.total_amount.checked_sub(amount) {
            Some(v) => v,
            None => return Outcome::Skipped(SkipReason::Overflow),
        };
        self.accounts.insert(
            client_id,
            ClientAccount {
                client: current.client,
                available_amount: available,
                held_amount: current.held_amount,
                total_amount: total,
                locked: current.locked,
            },
        );
        self.transactions.insert(
            transaction_id,
            TransactionState { client: client_id, amount, disputed: false },
        );
        proof {
            lemma_withdraw_well_formed(old(self)@, transaction_id, client_id, amount);
        }
        Outcome::Applied
    }

    /// Looks up the open transaction `transaction_id` and its account, and checks
    /// that the transaction belongs to `client_id` and is (`disputed`) or is not
    /// (`!disputed`) under dispute.
    fn lifecycle_lookup(&self, transaction_id: u32, client_id: u16, disputed: bool) -> (r: Result<
        (TransactionState, ClientAccount),
        SkipReason,
    >)
        requires
            self.wf(),
        ensures
            match r {
                Ok((t, a)) => {
                    &&& self@.lifecycle_check(transaction_id, client_id, disputed) is None
                    &&& t == self@.transactions[transaction_id]
                    &&& a == self@.accounts[client_id]
                },
                Err(reason) => self@.lifecycle_check(transaction_id, client_id, disputed) == Some(
                    reason,
                ),
            },
    {
        let record = match self.transactions.get(&transaction_id) {
            Some(t) => *t,
            None => return Err(SkipReason::UnknownTransaction),
        };
        if record.client != client_id {
            return Err(SkipReason::ClientMismatch);
        }
        if record.disputed != disputed {
            if disputed {
                return Err(SkipReason::NotDisputed);
            } else {
                return Err(SkipReason::AlreadyDisputed);
            }
        }
        match self.accounts.get(&client_id) {
            Some(a) => Ok((record, *a)),
            None => Err(SkipReason::UnknownAccount),
        }
    }

    fn dispute(&mut self, transaction_id: u32, client_id: u16) -> (r: Outcome)
        requires
            old(self).wf(),
        ensures
            final(self).wf(),
            (final(self)@, r) == old(self)@.dispute(transaction_id, client_id),
    {
        let (record, account) = match self.lifecycle_lookup(transaction_id, client_id, false) {
            Ok(found) => found,
            Err(reason) => return Outcome::Skipped(reason),
        };
        let available = match account.available_amount.checked_sub(record.amount) {
            Some(v) => v,
            None => return Outcome::Skipped(SkipReason::Overflow),
        };
        let held = match account.held_amount.checked_add(record.amount) {
            Some(v) => v,
            None => return Outcome::Skipped(SkipReason::Overflow),
        };
        self.accounts.insert(
            client_id,
            ClientAccount {
                client: account.client,
                available_amount: available,
                held_amount: held,
                total_amount: account.total_amount,
                locked: account.locked,
            },
        );
        self.transactions.insert(
            transaction_id,
            TransactionState { client: record.client, amount: record.amount, disputed: true },
        );
        proof {
            lemma_dispute_well_formed(old(self)@, transaction_id, client_id);
        }
        Outcome::Applied
    }

    fn resolve(&mut self, transaction_id: u32, client_id: u16) -> (r: Outcome)
        requires
            old(self).wf(),
        ensures
            final(self).wf(),
            (final(self)@, r) == old(self)@.resolve(transaction_id, client_id),
    {
        let (record, account) = match self.lifecycle_lookup(transaction_id, client_id, true) {
            Ok(found) => found,
            Err(reason) => return Outcome::Skipped(reason),
        };
        let available = match account.available_amount.checked_add(record.amount) {
            Some(v) => v,
            None => return Outcome::Skipped(SkipReason::Overflow),
        };
        let held = match account.held_amount.checked_sub(record.amount) {
            Some(v) => v,
            None => return Outcome::Skipped(SkipReason::Overflow),
        };
        self.accounts.insert(
            client_id,
            ClientAccount {
                client: account.client,
                available_amount: available,
                held_amount: held,
                total_amount: account.total_amount,
                locked: account.locked,
            },
        );
        self.transactions.remove(&transaction_id);
        proof {
            lemma_resolve_well_formed(old(self)@, transaction_id, client_id);
        }
        Outcome::Applied
    }

    fn chargeback(&mut self, transaction_id: u32, client_id: u16) -> (r: Outcome)
        requires
            old(self).wf(),
        ensures
            final(self).wf(),
            (final(self)@, r) == old(self)@.chargeback(transaction_id, client_id),
    {
        let (record, account) = match self.lifecycle_lookup(transaction_id, client_id, true) {
            Ok(found) => found,
            Err(reason) => return Outcome::Skipped(reason),
        };
        let total = match account.total_amount.checked_sub(record.amount) {
            Some(v) => v,
            None => return Outcome::Skipped(SkipReason::Overflow),
        };
        let held = match account.held_amount.checked_sub(record.amount) {
            Some(v) => v,
            None => return Outcome::Skipped(SkipReason::Overflow),
        };
        self.accounts.insert(
            client_id,
            ClientAccount {
                client: account.client,
                available_amount: account.available_amount,
                held_amount: held,
                total_amount: total,
                locked: true,
            },
        );
        self.transactions.remove(&transaction_id);
        proof {
            lemma_chargeback_well_formed(old(self)@, transaction_id, client_id);
        }
        Outcome::Applied
    }
    /// Applies one record to the ledger. A record that cannot be applied leaves
    /// the ledger unchanged and reports why.
    pub fn process_transaction(&mut self, transaction: Transaction) -> (r: Outcome)
        requires
            old(self).wf(),
        ensures
            final(self).wf(),
            final(self)@.well_formed(),
            (final(self)@, r) == apply(old(self)@, transaction),
    {
        let amount = match transaction.amount {
            Some(a) => a,
            None => 0,
        };
        match TransactionKind::from_name(&transaction.kind) {
            TransactionKind::Deposit => self.deposit(transaction.tx, transaction.client, amount),
            TransactionKind::Withdrawal => self.withdraw(transaction.tx, transaction.client, amount),
            TransactionKind::Dispute => self.dispute(transaction.tx, transaction.client),
            TransactionKind::Resolve => self.resolve(transaction.tx, transaction.client),
            TransactionKind::Chargeback => self.chargeback(transaction.tx, transaction.client),
            TransactionKind::Unknown => Outcome::Skipped(SkipReason::UnknownKind),
        }
    }

    /// Every account ever created, each once, in the order of creation.
    pub fn get_client_accounts(&self) -> (r: Vec<ClientAccount>)
        requires
            self.wf(),
        ensures
            forall|i: int|
                0 <= i < r@.len() ==> self@.accounts.contains_key(#[trigger] r@[i].client)
                    && self@.accounts[r@[i].client] == r@[i],
            forall|c: u16|
                self@.accounts.contains_key(c) ==> exists|i: int|
                    0 <= i < r@.len() && #[trigger] r@[i].client == c,
            forall|i: int, j: int| 0 <= i < j < r@.len() ==> r@[i].client != r@[j].client,
    {
        let mut out: Vec<ClientAccount> = Vec::new();
        let mut k: usize = 0;
        while k < self.clients.len()
            invariant
                self.wf(),
                k <= self.clients@.len(),
                out@.len() == k,
                forall|i: int|
                    0 <= i < k ==> #[trigger] out@[i] == self@.accounts[self.clients@[i]],
            decreases self.clients@.len() - k,
        {
            let c = self.clients[k];
            assert(self.clients@.contains(c));
            match self.accounts.get(&c) {
                Some(a) => out.push(*a),
                None => {
                    assert(false);
                },
            }
            k = k + 1;
        }
        proof {
            assert forall|c: u16| self@.accounts.contains_key(c) implies exists|i: int|
                0 <= i < out@.len() && #[trigger] out@[i].client == c by {
                assert(self.clients@.contains(c));
                let i = choose|i: int| 0 <= i < self.clients@.len() && self.clients@[i] == c;
                assert(out@[i].client == c);
            }
            assert forall|i: int| 0 <= i < out@.len() implies self@.accounts.contains_key(
                #[trigger] out@[i].client,
            ) && self@.accounts[out@[i].client] == out@[i] by {
                assert(self.clients@.contains(self.clients@[i]));
            }
            assert forall|i: int, j: int| 0 <= i < j < out@.len() implies out@[i].client
                != out@[j].client by {
                assert(self.clients@.contains(self.clients@[i]));
                assert(self.clients@.contains(self.clients@[j]));
            }
        }
        out
    }
}

} // verus!
