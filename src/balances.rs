//! A ledger of reservable balances: each account has a free and a reserved
//! part. Reserving moves funds from free to reserved, unreserving moves them
//! back, and a keep-alive transfer moves free funds between accounts without
//! leaving either below the existential deposit.
use vstd::prelude::*;
use std::collections::HashMap;

verus! {

broadcast use vstd::std_specs::hash::group_hash_axioms;

/// The balance of one account.
#[derive(Clone, Copy, Debug, PartialEq, Eq)]
pub struct AccountData {
    pub free: u128,
    pub reserved: u128,
}

/// Why a ledger operation was refused.
#[derive(Clone, Copy, Debug, PartialEq, Eq)]
pub enum LedgerError {
    /// The free balance is below the amount asked for.
    InsufficientBalance,
    /// The sender would be left below the existential deposit.
    KeepAlive,
    /// The receiver would be left below the existential deposit.
    ExistentialDeposit,
    /// The receiver's total would overflow.
    Overflow,
}

/// The mathematical state of a ledger: the accounts that were ever touched,
/// and the existential deposit.
pub struct LedgerView {
    pub accounts: Map<u64, AccountData>,
    pub existential_deposit: u128,
}

pub open spec fn zero_account() -> AccountData {
    AccountData { free: 0, reserved: 0 }
}

impl LedgerView {
    /// The balance of `who`; an account never touched holds nothing.
    pub open spec fn account(self, who: u64) -> AccountData {
        if self.accounts.contains_key(who) {
            self.accounts[who]
        } else {
            zero_account()
        }
    }

    pub open spec fn total(self, who: u64) -> nat {
        self.account(who).free as nat + self.account(who).reserved as nat
    }

    /// Every account's total fits in the balance type.
    pub open spec fn wf(self) -> bool {
        forall|a: u64| #[trigger] self.accounts.contains_key(a) ==> self.total(a) <= u128::MAX
    }

    pub open spec fn can_reserve(self, who: u64, amount: u128) -> bool {
        self.account(who).free >= amount
    }

    /// The ledger after `amount` of `who`'s free balance is reserved.
    pub open spec fn reserve(self, who: u64, amount: u128) -> LedgerView {
        if amount == 0 {
            self
        } else {
            LedgerView {
                accounts: self.accounts.insert(
                    who,
                    AccountData {
                        free: (self.account(who).free - amount) as u128,
                        reserved: (self.account(who).reserved + amount) as u128,
                    },
                ),
                ..self
            }
        }
    }

    /// What unreserving `amount` from `who` moves: at most what is reserved.
    pub open spec fn unreservable(self, who: u64, amount: u128) -> u128 {
        if amount <= self.account(who).reserved {
            amount
        } else {
            self.account(who).reserved
        }
    }

    /// The ledger after up to `amount` of `who`'s reserved balance is freed.
    pub open spec fn unreserve(self, who: u64, amount: u128) -> LedgerView {
        let moved = self.unreservable(who, amount);
        if moved == 0 {
            self
        } else {
            LedgerView {
                accounts: self.accounts.insert(
                    who,
                    AccountData {
                        free: (self.account(who).free + moved) as u128,
                        reserved: (self.account(who).reserved - moved) as u128,
                    },
                ),
                ..self
            }
        }
    }

    /// Why a keep-alive transfer of `amount` from `from` to `to` is refused,
    /// checked in this order; `None` where it goes through.
    pub open spec fn transfer_error(self, from: u64, to: u64, amount: u128) -> Option<
        LedgerError,
    > {
        if amount == 0 || from == to {
            None
        } else if self.account(from).free < amount {
            Some(LedgerError::InsufficientBalance)
        } else if self.total(to) + amount > u128::MAX {
            Some(LedgerError::Overflow)
        } else if self.total(to) + amount < self.existential_deposit {
            Some(LedgerError::ExistentialDeposit)
        } else if self.total(from) - amount < self.existential_deposit {
            Some(LedgerError::KeepAlive)
        } else {
            None
        }
    }

    /// The ledger after a keep-alive transfer that goes through.
    pub open spec fn transfer(self, from: u64, to: u64, amount: u128) -> LedgerView {
        if amount == 0 || from == to {
            self
        } else {
            let f = self.account(from);
            let t = self.account(to);
            LedgerView {
                accounts: self.accounts.insert(
                    from,
                    AccountData { free: (f.free - amount) as u128, reserved: f.reserved },
                ).insert(to, AccountData { free: (t.free + amount) as u128, reserved: t.reserved }),
                ..self
            }
        }
    }
}

/// A ledger of reservable balances.
pub struct Balances {
    accounts: HashMap<u64, AccountData>,
    existential_deposit: u128,
}

impl View for Balances {
    type V = LedgerView;

    closed spec fn view(&self) -> LedgerView {
        LedgerView { accounts: self.accounts@, existential_deposit: self.existential_deposit }
    }
}

impl Balances {
    /// An empty ledger with the given existential deposit.
    pub fn new(existential_deposit: u128) -> (r: Balances)
        ensures
            r@.accounts == Map::<u64, AccountData>::empty(),
            r@.existential_deposit == existential_deposit,
            r@.wf(),
    {
        Balances { accounts: HashMap::new(), existential_deposit }
    }

    fn get(&self, who: u64) -> (r: AccountData)
        ensures
            r == self@.account(who),
    {
        match self.accounts.get(&who) {
            Some(a) => *a,
            None => AccountData { free: 0, reserved: 0 },
        }
    }

    pub fn existential_deposit(&self) -> (r: u128)
        ensures
            r == self@.existential_deposit,
    {
        self.existential_deposit
    }

    pub fn free_balance(&self, who: u64) -> (r: u128)
        ensures
            r == self@.account(who).free,
    {
        self.get(who).free
    }

    pub fn reserved_balance(&self, who: u64) -> (r: u128)
        ensures
            r == self@.account(who).reserved,
    {
        self.get(who).reserved
    }

    /// Sets the free balance of `who`, keeping what it has reserved.
    pub fn make_free_balance_be(&mut self, who: u64, free: u128)
        requires
            old(self)@.wf(),
            old(self)@.account(who).reserved as nat + free as nat <= u128::MAX,
        ensures
            final(self)@.wf(),
            final(self)@ == (LedgerView {
                accounts: old(self)@.accounts.insert(
                    who,
                    AccountData { free, reserved: old(self)@.account(who).reserved },
                ),
                ..old(self)@
            }),
    {
        let a = self.get(who);
        self.accounts.insert(who, AccountData { free, reserved: a.reserved });
    }

    pub fn can_reserve(&self, who: u64, amount: u128) -> (r: bool)
        ensures
            r == self@.can_reserve(who, amount),
    {
        self.get(who).free >= amount
    }

    /// Moves `amount` of `who`'s free balance to its reserved balance; refused,
    /// with nothing changed, where the free balance is short.
    pub fn reserve(&mut self, who: u64, amount: u128) -> (r: Result<(), LedgerError>)
        requires
            old(self)@.wf(),
        ensures
            final(self)@.wf(),
            old(self)@.can_reserve(who, amount) ==> r == Ok::<(), LedgerError>(())
                && final(self)@ == old(self)@.reserve(who, amount),
            !old(self)@.can_reserve(who, amount) ==> r == Err::<(), LedgerError>(
                LedgerError::InsufficientBalance,
            ) && final(self)@ == old(self)@,
    {
        let a = self.get(who);
        if a.free < amount {
            return Err(LedgerError::InsufficientBalance);
        }
        if amount != 0 {
            self.accounts.insert(
                who,
                AccountData { free: a.free - amount, reserved: a.reserved + amount },
            );
        }
        proof {
            assert(self@.accounts =~= old(self)@.reserve(who, amount).accounts);
        }
        Ok(())
    }

    /// Frees up to `amount` of `who`'s reserved balance; returns the part of
    /// `amount` that was not reserved.
    pub fn unreserve(&mut self, who: u64, amount: u128) -> (r: u128)
        requires
            old(self)@.wf(),
        ensures
            final(self)@.wf(),
            final(self)@ == old(self)@.unreserve(who, amount),
            r == amount - old(self)@.unreservable(who, amount),
    {
        let a = self.get(who);
        let moved = if amount <= a.reserved {
            amount
        } else {
            a.reserved
        };
        if moved != 0 {
            self.accounts.insert(
                who,
                AccountData { free: a.free + moved, reserved: a.reserved - moved },
            );
        }
        proof {
            assert(self@.accounts =~= old(self)@.unreserve(who, amount).accounts);
        }
        amount - moved
    }

    /// Moves `amount` of free balance from `from` to `to`, leaving neither
    /// below the existential deposit; refused, with nothing changed, where
    /// `transfer_error` names a reason.
    pub fn transfer_keep_alive(&mut self, from: u64, to: u64, amount: u128) -> (r: Result<
        (),
        LedgerError,
    >)
        requires
            old(self)@.wf(),
        ensures
            final(self)@.wf(),
            match old(self)@.transfer_error(from, to, amount) {
                Some(e) => r == Err::<(), LedgerError>(e) && final(self)@ == old(self)@,
                None => r == Ok::<(), LedgerError>(()) && final(self)@ == old(self)@.transfer(
                    from,
                    to,
                    amount,
                ),
            },
    {
        if amount == 0 || from == to {
            return Ok(());
        }
        let f = self.get(from);
        let t = self.get(to);
        if f.free < amount {
            return Err(LedgerError::InsufficientBalance);
        }
        if t.reserved > u128::MAX - t.free || amount > u128::MAX - t.free - t.reserved {
            return Err(LedgerError::Overflow);
        }
        if t.free + t.reserved + amount < self.existential_deposit {
            return Err(LedgerError::ExistentialDeposit);
        }
        if f.free - amount + f.reserved < self.existential_deposit {
            return Err(LedgerError::KeepAlive);
        }
        self.accounts.insert(from, AccountData { free: f.free - amount, reserved: f.reserved });
        self.accounts.insert(to, AccountData { free: t.free + amount, reserved: t.reserved });
        proof {
            assert(self@.accounts =~= old(self)@.transfer(from, to, amount).accounts);
        }
        Ok(())
    }
}

} // verus!

verus! {

/// Unreserving and then reserving again what was moved leaves the ledger as
/// it was.
pub proof fn lemma_unreserve_then_reserve(l: LedgerView, who: u64, amount: u128)
    requires
        l.wf(),
    ensures
        l.unreserve(who, amount).can_reserve(who, l.unreservable(who, amount)),
        l.unreserve(who, amount).reserve(who, l.unreservable(who, amount)) == l,
{
    let moved = l.unreservable(who, amount);
    if moved != 0 {
        let back = l.unreserve(who, amount).reserve(who, moved);
        assert(l.accounts.contains_key(who));
        assert(back.accounts =~= l.accounts);
    }
}

} // verus!
