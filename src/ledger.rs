//! The ledger: its abstract state, the effect of each call on that state,
//! and the executable operations proved to follow it.

use vstd::prelude::*;

use crate::table::{balance_in, entries_inserted, BalanceEntry, BalanceTable};

verus! {

/// Why a ledger operation was rejected. A rejected operation changes nothing.
#[derive(Debug, Clone, Copy, PartialEq, Eq, Structural)]
pub enum LedgerError {
    /// The requested amount exceeds both the caller's pooled balance and the
    /// value attached to the call.
    InsufficientFunds,
    /// The new balance would not fit in a `u128`.
    Overflow,
}

/// A request to move `amount` units to `recipient`, for the host to enact.
pub struct Transfer {
    pub recipient: String,
    pub amount: u128,
}

/// The abstract state of the ledger: a pooled balance per depositor and a
/// gift balance per recipient. A missing identity holds zero.
pub struct LedgerView {
    pub deposits: Map<Seq<char>, nat>,
    pub gifts: Map<Seq<char>, nat>,
}

/// One mutating call against the ledger.
pub enum LedgerOp {
    Deposit { caller: Seq<char>, attached: nat },
    Gift { caller: Seq<char>, recipient: Seq<char>, amount: nat, attached: nat },
}

impl LedgerView {
    /// The state before any call: both mappings empty.
    pub open spec fn empty() -> LedgerView {
        LedgerView { deposits: Map::empty(), gifts: Map::empty() }
    }

    pub open spec fn deposit_of(self, k: Seq<char>) -> nat {
        balance_in(self.deposits, k)
    }

    pub open spec fn gift_of(self, k: Seq<char>) -> nat {
        balance_in(self.gifts, k)
    }

    /// Every stored balance lies between zero and `u128::MAX`.
    pub open spec fn in_range(self) -> bool {
        &&& forall|k: Seq<char>| #[trigger] self.deposits.contains_key(k) ==> 0 <= self.deposits[k] <= u128::MAX
        &&& forall|k: Seq<char>| #[trigger] self.gifts.contains_key(k) ==> 0 <= self.gifts[k] <= u128::MAX
    }

    /// Whether a deposit of `attached` by `caller` is accepted.
    pub open spec fn deposit_outcome(self, caller: Seq<char>, attached: nat) -> Result<(), LedgerError> {
        if self.deposit_of(caller) + attached <= u128::MAX {
            Ok(())
        } else {
            Err(LedgerError::Overflow)
        }
    }

    /// The state after a deposit of `attached` by `caller`.
    pub open spec fn after_deposit(self, caller: Seq<char>, attached: nat) -> LedgerView {
        if self.deposit_outcome(caller, attached) is Ok {
            LedgerView {
                deposits: self.deposits.insert(caller, self.deposit_of(caller) + attached),
                gifts: self.gifts,
            }
        } else {
            self
        }
    }

    /// Whether a gift of `amount` from `caller` to `recipient`, with
    /// `attached` units attached, is accepted.
    pub open spec fn gift_outcome(
        self,
        caller: Seq<char>,
        recipient: Seq<char>,
        amount: nat,
        attached: nat,
    ) -> Result<(), LedgerError> {
        if self.deposit_of(caller) < amount {
            if amount <= attached {
                Ok(())
            } else {
                Err(LedgerError::InsufficientFunds)
            }
        } else if self.gift_of(recipient) + amount <= u128::MAX {
            Ok(())
        } else {
            Err(LedgerError::Overflow)
        }
    }

    /// The state after a gift. Where the pool falls short, the attached value
    /// covers the amount, its remainder replaces the caller's pooled balance,
    /// and no gift balance is credited. Otherwise the amount leaves the pool
    /// and is credited to the recipient's gift balance.
    pub open spec fn after_gift(
        self,
        caller: Seq<char>,
        recipient: Seq<char>,
        amount: nat,
        attached: nat,
    ) -> LedgerView {
        if self.deposit_of(caller) < amount {
            if amount <= attached {
                LedgerView {
                    deposits: self.deposits.insert(caller, (attached - amount) as nat),
                    gifts: self.gifts,
                }
            } else {
                self
            }
        } else if self.gift_of(recipient) + amount <= u128::MAX {
            LedgerView {
                deposits: self.deposits.insert(caller, (self.deposit_of(caller) - amount) as nat),
                gifts: self.gifts.insert(recipient, self.gift_of(recipient) + amount),
            }
        } else {
            self
        }
    }

    /// The state after one call.
    pub open spec fn apply(self, op: LedgerOp) -> LedgerView {
        match op {
            LedgerOp::Deposit { caller, attached } => self.after_deposit(caller, attached),
            LedgerOp::Gift { caller, recipient, amount, attached } =>
                self.after_gift(caller, recipient, amount, attached),
        }
    }

    /// The state after a sequence of calls, first to last.
    pub open spec fn run(self, ops: Seq<LedgerOp>) -> LedgerView
        decreases ops.len(),
    {
        if ops.len() == 0 {
            self
        } else {
            self.apply(ops[0]).run(ops.drop_first())
        }
    }
}

/// The ledger: pooled deposits per depositor and gift balances per recipient.
pub struct Support {
    deposits: BalanceTable,
    gift: BalanceTable,
}

impl View for Support {
    type V = LedgerView;

    closed spec fn view(&self) -> LedgerView {
        LedgerView { deposits: self.deposits@, gifts: self.gift@ }
    }
}

impl Default for Support {
    /// An empty ledger.
    fn default() -> (r: Self)
        ensures
            r@ == LedgerView::empty(),
    {
        Support { deposits: BalanceTable::new(), gift: BalanceTable::new() }
    }
}

impl Support {
    /// Every balance the ledger stores is at least zero and fits in a `u128`.
    pub proof fn lemma_balances_in_range(&self)
        ensures
            self@.in_range(),
    {
        self.deposits.lemma_amounts_fit();
        self.gift.lemma_amounts_fit();
    }

    /// Adds `attached` to the pooled balance of `caller`. Rejected, with no
    /// change, where the sum would not fit in a `u128`.
    pub fn deposit(&mut self, caller: String, attached: u128) -> (r: Result<(), LedgerError>)
        ensures
            r == old(self)@.deposit_outcome(caller@, attached as nat),
            final(self)@ == old(self)@.after_deposit(caller@, attached as nat),
    {
        let previous_deposit = self.get_deposit(caller.clone());
        if attached > u128::MAX - previous_deposit {
            return Err(LedgerError::Overflow);
        }
        self.deposits.set(caller, previous_deposit + attached);
        Ok(())
    }

    /// A ledger that holds the given pooled and gift balances, each list
    /// stored entry by entry, first to last.
    pub fn from_entries(deposits: Vec<BalanceEntry>, gifts: Vec<BalanceEntry>) -> (r: Self)
        ensures
            r@ == (LedgerView { deposits: entries_inserted(deposits@), gifts: entries_inserted(gifts@) }),
    {
        Support { deposits: BalanceTable::from_entries(deposits), gift: BalanceTable::from_entries(gifts) }
    }

    /// The stored pooled balances, one entry per depositor.
    pub fn deposit_entries(&self) -> (r: Vec<BalanceEntry>)
        ensures
            entries_inserted(r@) == self@.deposits,
    {
        self.deposits.to_entries()
    }

    /// The stored gift balances, one entry per recipient.
    pub fn gift_entries(&self) -> (r: Vec<BalanceEntry>)
        ensures
            entries_inserted(r@) == self@.gifts,
    {
        self.gift.to_entries()
    }

    /// The pooled balance of `account_id`; zero if it never deposited.
    pub fn get_deposit(&self, account_id: String) -> (r: u128)
        ensures
            r as nat == self@.deposit_of(account_id@),
    {
        self.deposits.get(&account_id)
    }

    /// Sends `amount` to `recipient` on behalf of `caller`, with `attached`
    /// units attached to the call, and returns the transfer to enact.
    pub fn send_gift(&mut self, caller: String, recipient: String, amount: u128, attached: u128) -> (r:
        Result<Transfer, LedgerError>)
        ensures
            final(self)@ == old(self)@.after_gift(caller@, recipient@, amount as nat, attached as nat),
            match r {
                Ok(t) => old(self)@.gift_outcome(caller@, recipient@, amount as nat, attached as nat) is Ok
                    && t.recipient@ == recipient@ && t.amount == amount,
                Err(e) => old(self)@.gift_outcome(caller@, recipient@, amount as nat, attached as nat)
                    == Err::<(), LedgerError>(e),
            },
    {
        let deposited_amount = self.get_deposit(caller.clone());
        if deposited_amount < amount {
            if amount > attached {
                return Err(LedgerError::InsufficientFunds);
            }
            self.deposits.set(caller, attached - amount);
            Ok(Transfer { recipient, amount })
        } else {
            let balance = self.get_balance(recipient.clone());
            if amount > u128::MAX - balance {
                return Err(LedgerError::Overflow);
            }
            self.deposits.set(caller, deposited_amount - amount);
            self.gift.set(recipient.clone(), balance + amount);
            Ok(Transfer { recipient, amount })
        }
    }

    /// The gift balance of `youtube_user_id`; zero if it never received one.
    pub fn get_balance(&self, youtube_user_id: String) -> (r: u128)
        ensures
            r as nat == self@.gift_of(youtube_user_id@),
    {
        self.gift.get(&youtube_user_id)
    }
}

} // verus!
