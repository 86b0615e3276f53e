//! A minimal fungible-token ledger.
//!
//! The ledger tracks per-account balances, a fixed total supply and a
//! decimal display precision. Its one mutating operation, [`Azt::transfer`],
//! moves value between two accounts with checked accounting: a transfer
//! either happens in full or leaves the ledger untouched, and the sum of
//! all balances always equals the total supply ([`Azt::inv`]).
//!
//! The hosting environment is expected to resolve the caller's identity
//! from the execution context and to persist the ledger between calls;
//! the ledger itself only decides and records balance movements.
use vstd::prelude::*;
use vstd::pervasive::VecAdditionalExecFns;

verus! {

/// A quantity of token base units. Balances are unsigned, so they can
/// never go negative.
pub type Balance = u128;

/// Opaque identity of a balance holder. The ledger interprets nothing of
/// it beyond equality and use as a lookup key.
#[derive(Clone, Copy, PartialEq, Eq, Structural, Debug, Hash)]
pub struct AccountId {
    pub id: u64,
}

/// Why a transfer was refused. A refused transfer never mutates the ledger.
#[derive(Clone, Copy, PartialEq, Eq, Structural, Debug)]
pub enum Error {
    /// The source account holds less than the requested value.
    InsufficientBalance,
    /// Crediting the destination would exceed the largest representable
    /// balance.
    Overflow,
}

/// The balance that a sequence of ledger entries associates with `account`:
/// the amount of the first entry for that account, or zero when the account
/// has no entry.
pub open spec fn lookup(s: Seq<(AccountId, Balance)>, account: AccountId) -> Balance
    decreases s.len(),
{
    if s.len() == 0 {
        0
    } else if s[0].0 == account {
        s[0].1
    } else {
        lookup(s.drop_first(), account)
    }
}

/// The sum of the amounts of all entries.
pub open spec fn sum_balances(s: Seq<(AccountId, Balance)>) -> int
    decreases s.len(),
{
    if s.len() == 0 {
        0
    } else {
        s[0].1 + sum_balances(s.drop_first())
    }
}

/// No two entries belong to the same account.
pub open spec fn distinct_accounts(s: Seq<(AccountId, Balance)>) -> bool {
    forall|i: int, j: int| 0 <= i < j < s.len() ==> s[i].0 != s[j].0
}

/// The sum of the balances that the entries `s` associate with each account
/// in `accounts`, in order.
pub open spec fn sum_over_accounts(s: Seq<(AccountId, Balance)>, accounts: Seq<AccountId>) -> int
    decreases accounts.len(),
{
    if accounts.len() == 0 {
        0
    } else {
        lookup(s, accounts[0]) + sum_over_accounts(s, accounts.drop_first())
    }
}

proof fn lemma_sum_nonneg(s: Seq<(AccountId, Balance)>)
    ensures
        sum_balances(s) >= 0,
    decreases s.len(),
{
    if s.len() > 0 {
        lemma_sum_nonneg(s.drop_first());
    }
}

proof fn lemma_lookup_le_sum(s: Seq<(AccountId, Balance)>, account: AccountId)
    ensures
        lookup(s, account) <= sum_balances(s),
    decreases s.len(),
{
    if s.len() == 0 {
    } else if s[0].0 == account {
        lemma_sum_nonneg(s.drop_first());
    } else {
        lemma_lookup_le_sum(s.drop_first(), account);
    }
}

proof fn lemma_lookup_pair_le_sum(s: Seq<(AccountId, Balance)>, a: AccountId, b: AccountId)
    requires
        a != b,
    ensures
        lookup(s, a) + lookup(s, b) <= sum_balances(s),
    decreases s.len(),
{
    if s.len() == 0 {
    } else if s[0].0 == a {
        lemma_lookup_le_sum(s.drop_first(), b);
    } else if s[0].0 == b {
        lemma_lookup_le_sum(s.drop_first(), a);
    } else {
        lemma_lookup_pair_le_sum(s.drop_first(), a, b);
    }
}

proof fn lemma_lookup_first_match(s: Seq<(AccountId, Balance)>, i: int)
    requires
        0 <= i < s.len(),
        forall|k: int| 0 <= k < i ==> s[k].0 != s[i].0,
    ensures
        lookup(s, s[i].0) == s[i].1,
    decreases s.len(),
{
    if i > 0 {
        lemma_lookup_first_match(s.drop_first(), i - 1);
    }
}

proof fn lemma_lookup_absent(s: Seq<(AccountId, Balance)>, account: AccountId)
    requires
        forall|k: int| 0 <= k < s.len() ==> s[k].0 != account,
    ensures
        lookup(s, account) == 0,
    decreases s.len(),
{
    if s.len() > 0 {
        lemma_lookup_absent(s.drop_first(), account);
    }
}

proof fn lemma_sum_update(s: Seq<(AccountId, Balance)>, i: int, e: (AccountId, Balance))
    requires
        0 <= i < s.len(),
    ensures
        sum_balances(s.update(i, e)) == sum_balances(s) - s[i].1 + e.1,
    decreases s.len(),
{
    if i == 0 {
        assert(s.update(0, e).drop_first() =~= s.drop_first());
    } else {
        assert(s.update(i, e).drop_first() =~= s.drop_first().update(i - 1, e));
        lemma_sum_update(s.drop_first(), i - 1, e);
    }
}

proof fn lemma_lookup_update_other(
    s: Seq<(AccountId, Balance)>,
    i: int,
    e: (AccountId, Balance),
    b: AccountId,
)
    requires
        0 <= i < s.len(),
        s[i].0 == e.0,
        b != e.0,
    ensures
        lookup(s.update(i, e), b) == lookup(s, b),
    decreases s.len(),
{
    if i == 0 {
        assert(s.update(0, e).drop_first() =~= s.drop_first());
    } else {
        assert(s.update(i, e).drop_first() =~= s.drop_first().update(i - 1, e));
        lemma_lookup_update_other(s.drop_first(), i - 1, e, b);
    }
}

proof fn lemma_sum_push(s: Seq<(AccountId, Balance)>, e: (AccountId, Balance))
    ensures
        sum_balances(s.push(e)) == sum_balances(s) + e.1,
    decreases s.len(),
{
    if s.len() == 0 {
        assert(s.push(e).drop_first() =~= Seq::<(AccountId, Balance)>::empty());
        assert(s.push(e)[0] == e);
        assert(sum_balances(Seq::<(AccountId, Balance)>::empty()) == 0);
    } else {
        assert(s.push(e).drop_first() =~= s.drop_first().push(e));
        lemma_sum_push(s.drop_first(), e);
        assert(s.push(e)[0] == s[0]);
    }
}

proof fn lemma_lookup_push_other(
    s: Seq<(AccountId, Balance)>,
    e: (AccountId, Balance),
    b: AccountId,
)
    requires
        b != e.0,
    ensures
        lookup(s.push(e), b) == lookup(s, b),
    decreases s.len(),
{
    if s.len() == 0 {
        assert(s.push(e).drop_first() =~= Seq::<(AccountId, Balance)>::empty());
        assert(s.push(e)[0] == e);
        assert(lookup(Seq::<(AccountId, Balance)>::empty(), b) == 0);
    } else {
        assert(s.push(e).drop_first() =~= s.drop_first().push(e));
        lemma_lookup_push_other(s.drop_first(), e, b);
    }
}

proof fn lemma_lookup_push_new(s: Seq<(AccountId, Balance)>, e: (AccountId, Balance))
    requires
        forall|k: int| 0 <= k < s.len() ==> s[k].0 != e.0,
    ensures
        lookup(s.push(e), e.0) == e.1,
{
    lemma_lookup_first_match(s.push(e), s.len() as int);
}

proof fn lemma_tail_contains(accounts: Seq<AccountId>, a: AccountId)
    requires
        accounts.len() > 0,
        accounts.drop_first().contains(a),
    ensures
        accounts.contains(a),
{
    let i = choose|i: int|
        0 <= i < accounts.drop_first().len() && accounts.drop_first()[i] == a;
    assert(accounts[i + 1] == a);
}

proof fn lemma_sum_over_agree(
    s1: Seq<(AccountId, Balance)>,
    s2: Seq<(AccountId, Balance)>,
    accounts: Seq<AccountId>,
)
    requires
        forall|a: AccountId| accounts.contains(a) ==> lookup(s1, a) == lookup(s2, a),
    ensures
        sum_over_accounts(s1, accounts) == sum_over_accounts(s2, accounts),
    decreases accounts.len(),
{
    if accounts.len() > 0 {
        assert(accounts.contains(accounts[0]));
        assert forall|a: AccountId| accounts.drop_first().contains(a) implies lookup(s1, a)
            == lookup(s2, a) by {
            lemma_tail_contains(accounts, a);
        };
        lemma_sum_over_agree(s1, s2, accounts.drop_first());
    }
}

proof fn lemma_sum_over_differs_at_one(
    s1: Seq<(AccountId, Balance)>,
    s2: Seq<(AccountId, Balance)>,
    accounts: Seq<AccountId>,
    x: AccountId,
)
    requires
        accounts.no_duplicates(),
        accounts.contains(x),
        forall|a: AccountId| a != x ==> lookup(s1, a) == lookup(s2, a),
    ensures
        sum_over_accounts(s1, accounts) == sum_over_accounts(s2, accounts) + lookup(s1, x)
            - lookup(s2, x),
    decreases accounts.len(),
{
    if accounts[0] == x {
        assert forall|a: AccountId| accounts.drop_first().contains(a) implies lookup(s1, a)
            == lookup(s2, a) by {
            let i = choose|i: int|
                0 <= i < accounts.drop_first().len() && accounts.drop_first()[i] == a;
            assert(accounts[i + 1] == a);
            assert(a != x);
        };
        lemma_sum_over_agree(s1, s2, accounts.drop_first());
    } else {
        let i = choose|i: int| 0 <= i < accounts.len() && accounts[i] == x;
        assert(accounts.drop_first()[i - 1] == x);
        assert(accounts.drop_first().contains(x));
        lemma_sum_over_differs_at_one(s1, s2, accounts.drop_first(), x);
    }
}

proof fn lemma_sum_over_covering(s: Seq<(AccountId, Balance)>, accounts: Seq<AccountId>)
    requires
        distinct_accounts(s),
        accounts.no_duplicates(),
        forall|k: int| 0 <= k < s.len() ==> accounts.contains(s[k].0),
    ensures
        sum_over_accounts(s, accounts) == sum_balances(s),
    decreases s.len(),
{
    if s.len() == 0 {
        lemma_sum_over_agree(s, Seq::<(AccountId, Balance)>::empty(), accounts);
        lemma_sum_over_zero(accounts);
    } else {
        let e = s[0];
        let rest = s.drop_first();
        assert forall|k: int| 0 <= k < rest.len() implies accounts.contains(rest[k].0) by {
            assert(rest[k] == s[k + 1]);
        };
        lemma_sum_over_covering(rest, accounts);
        assert forall|k: int| 0 <= k < rest.len() implies rest[k].0 != e.0 by {
            assert(rest[k] == s[k + 1]);
        };
        lemma_lookup_absent(rest, e.0);
        assert(lookup(s, e.0) == e.1);
        assert(forall|a: AccountId| a != e.0 ==> lookup(s, a) == lookup(rest, a));
        assert(accounts.contains(s[0].0));
        lemma_sum_over_differs_at_one(s, rest, accounts, e.0);
    }
}

proof fn lemma_sum_over_zero(accounts: Seq<AccountId>)
    ensures
        sum_over_accounts(Seq::<(AccountId, Balance)>::empty(), accounts) == 0,
    decreases accounts.len(),
{
    if accounts.len() > 0 {
        lemma_sum_over_zero(accounts.drop_first());
    }
}

/// The balance ledger: the account-to-balance mapping, the fixed total
/// supply and the display precision.
pub struct Azt {
    balances: Vec<(AccountId, Balance)>,
    decimals: u8,
    total_supply: Balance,
}

impl Azt {
    /// The ledger's entries: every account that has ever received value,
    /// paired with its current balance.
    pub closed spec fn spec_entries(self) -> Seq<(AccountId, Balance)> {
        self.balances@
    }

    /// The stored display precision.
    pub closed spec fn spec_decimals(self) -> u8 {
        self.decimals
    }

    /// The fixed issuance recorded at construction.
    pub closed spec fn spec_total_supply(self) -> Balance {
        self.total_supply
    }

    /// The balance held by `account`; an account without an entry holds
    /// zero.
    pub open spec fn spec_balance_of(self, account: AccountId) -> Balance {
        lookup(self.spec_entries(), account)
    }

    /// The sum of all stored balances.
    pub open spec fn spec_sum(self) -> int {
        sum_balances(self.spec_entries())
    }

    /// The ledger invariant: one entry per account, and the balances sum to
    /// exactly the total supply. Construction establishes it and every
    /// transfer preserves it, so supply is conserved across any sequence of
    /// transfers.
    pub open spec fn inv(self) -> bool {
        &&& distinct_accounts(self.spec_entries())
        &&& self.spec_sum() == self.spec_total_supply() as int
    }

    /// Creates a ledger that deposits the entire supply with `creator`,
    /// the account that performed construction. Any `decimals` value is
    /// accepted; it only records display precision.
    pub fn new(decimals: u8, total_supply: Balance, creator: AccountId) -> (r: Azt)
        ensures
            r.inv(),
            r.spec_decimals() == decimals,
            r.spec_total_supply() == total_supply,
            r.spec_balance_of(creator) == total_supply,
            forall|a: AccountId| a != creator ==> r.spec_balance_of(a) == 0,
    {
        let mut balances: Vec<(AccountId, Balance)> = Vec::new();
        balances.push((creator, total_supply));
        let r = Azt { balances, decimals, total_supply };
        proof {
            let s = r.spec_entries();
            lemma_lookup_first_match(s, 0);
            lemma_sum_push(Seq::<(AccountId, Balance)>::empty(), (creator, total_supply));
            assert forall|a: AccountId| a != creator implies r.spec_balance_of(a) == 0 by {
                lemma_lookup_absent(s, a);
            };
        }
        r
    }

    /// The stored display precision, verbatim.
    pub fn decimals(&self) -> (r: u8)
        ensures
            r == self.spec_decimals(),
    {
        self.decimals
    }

    /// The fixed total issuance.
    pub fn total_supply(&self) -> (r: Balance)
        ensures
            r == self.spec_total_supply(),
    {
        self.total_supply
    }

    /// The index of the entry for `account`, if there is one.
    fn find_account(&self, account: AccountId) -> (r: Option<usize>)
        ensures
            match r {
                Some(i) => (i as int) < self.spec_entries().len()
                    && self.spec_entries()[i as int].0 == account
                    && (forall|k: int| 0 <= k < i ==> self.spec_entries()[k].0 != account),
                None => forall|k: int|
                    0 <= k < self.spec_entries().len() ==> self.spec_entries()[k].0 != account,
            },
    {
        let n: usize = self.balances.len();
        let mut i: usize = 0;
        while i < n
            invariant
                n == self.balances.len(),
                i <= n,
                forall|k: int| 0 <= k < i ==> self.balances@[k].0 != account,
            decreases n - i,
        {
            if self.balances[i].0 == account {
                return Some(i);
            }
            i += 1;
        }
        None
    }

    /// The balance held by `account`, or zero when the account has no
    /// entry: an account never written to is an implicit zero-balance
    /// member of the ledger.
    pub fn balance_of(&self, account: AccountId) -> (r: Balance)
        ensures
            r == self.spec_balance_of(account),
    {
        match self.find_account(account) {
            Some(i) => {
                proof {
                    lemma_lookup_first_match(self.spec_entries(), i as int);
                }
                self.balances[i].1
            },
            None => {
                proof {
                    lemma_lookup_absent(self.spec_entries(), account);
                }
                0
            },
        }
    }

    /// Records `new_amount` as the balance of `account`, leaving every
    /// other account untouched.
    fn set_balance(&mut self, account: AccountId, new_amount: Balance)
        requires
            distinct_accounts(old(self).spec_entries()),
        ensures
            distinct_accounts(final(self).spec_entries()),
            final(self).spec_balance_of(account) == new_amount,
            forall|b: AccountId|
                b != account ==> final(self).spec_balance_of(b) == old(self).spec_balance_of(b),
            final(self).spec_sum() == old(self).spec_sum() - old(self).spec_balance_of(account)
                + new_amount,
            final(self).spec_decimals() == old(self).spec_decimals(),
            final(self).spec_total_supply() == old(self).spec_total_supply(),
    {
        let ghost s_old = self.balances@;
        let e = (account, new_amount);
        match self.find_account(account) {
            Some(i) => {
                proof {
                    lemma_lookup_first_match(s_old, i as int);
                }
                self.balances.set(i, e);
                proof {
                    let s_new = self.balances@;
                    lemma_sum_update(s_old, i as int, e);
                    lemma_lookup_first_match(s_new, i as int);
                    assert forall|b: AccountId| b != account implies lookup(s_new, b) == lookup(
                        s_old,
                        b,
                    ) by {
                        lemma_lookup_update_other(s_old, i as int, e, b);
                    };
                    assert forall|p: int, q: int|
                        0 <= p < q < s_new.len() implies s_new[p].0 != s_new[q].0 by {
                        assert(s_new[p].0 == s_old[p].0);
                        assert(s_new[q].0 == s_old[q].0);
                    };
                }
            },
            None => {
                proof {
                    lemma_lookup_absent(s_old, account);
                }
                self.balances.push(e);
                proof {
                    let s_new = self.balances@;
                    lemma_sum_push(s_old, e);
                    lemma_lookup_push_new(s_old, e);
                    assert forall|b: AccountId| b != account implies lookup(s_new, b) == lookup(
                        s_old,
                        b,
                    ) by {
                        lemma_lookup_push_other(s_old, e, b);
                    };
                }
            },
        }
    }

    /// Moves `value` base units from `caller` to `to`. The caller identity
    /// must be resolved by the hosting environment from the execution
    /// context, never taken from an untrusted request field.
    ///
    /// The transfer is all-or-nothing: it succeeds exactly when the caller
    /// holds at least `value`, and a refused transfer leaves the ledger
    /// untouched. A self-transfer is permitted and leaves the caller's
    /// balance unchanged.
    ///
    /// Crediting the destination cannot overflow here: the invariant bounds
    /// the two balances involved by the total supply, so the checked
    /// accounting of [`transfer_balances`] never reports [`Error::Overflow`]
    /// on a ledger, and the sole error is [`Error::InsufficientBalance`].
    pub fn transfer(&mut self, caller: AccountId, to: AccountId, value: Balance) -> (r: Result<
        (),
        Error,
    >)
        requires
            old(self).inv(),
        ensures
            final(self).inv(),
            final(self).spec_decimals() == old(self).spec_decimals(),
            final(self).spec_total_supply() == old(self).spec_total_supply(),
            r is Ok <==> value <= old(self).spec_balance_of(caller),
            r == Err::<(), Error>(Error::InsufficientBalance) <==> old(self).spec_balance_of(
                caller,
            ) < value,
            r is Err ==> *final(self) == *old(self),
            r is Ok && caller != to ==> final(self).spec_balance_of(caller) == old(
                self,
            ).spec_balance_of(caller) - value,
            r is Ok && caller != to ==> final(self).spec_balance_of(to) == old(
                self,
            ).spec_balance_of(to) + value,
            caller == to ==> final(self).spec_balance_of(caller) == old(self).spec_balance_of(
                caller,
            ),
            forall|a: AccountId|
                a != caller && a != to ==> final(self).spec_balance_of(a) == old(
                    self,
                ).spec_balance_of(a),
    {
        let from_balance = self.balance_of(caller);
        let to_balance = self.balance_of(to);
        let same_account = caller == to;
        proof {
            if caller != to {
                lemma_lookup_pair_le_sum(self.spec_entries(), caller, to);
            }
        }
        match transfer_balances(from_balance, to_balance, same_account, value) {
            Ok(pair) => {
                self.set_balance(caller, pair.0);
                self.set_balance(to, pair.1);
                Ok(())
            },
            Err(e) => Err(e),
        }
    }
}

/// The accounting decision of one transfer, on plain balances: the value
/// the source account is left with and the value the destination account
/// ends up holding, or the reason the transfer is refused. `same_account`
/// says whether source and destination are the same account, in which case
/// the credit lands on top of the debit and the destination ends up with
/// the source's original balance.
///
/// A hosting environment that keeps the balances in its own store can let
/// this function make the decision and then write both returned balances
/// back, destination last.
pub fn transfer_balances(
    from_balance: Balance,
    to_balance: Balance,
    same_account: bool,
    value: Balance,
) -> (r: Result<(Balance, Balance), Error>)
    ensures
        r is Ok <==> value <= from_balance && (same_account || to_balance + value <= u128::MAX),
        r == Err::<(Balance, Balance), Error>(Error::InsufficientBalance) <==> from_balance
            < value,
        r == Err::<(Balance, Balance), Error>(Error::Overflow) <==> value <= from_balance
            && !same_account && to_balance + value > u128::MAX,
        r matches Ok(p) ==> p.0 == from_balance - value,
        r matches Ok(p) ==> p.1 == if same_account {
            from_balance as int
        } else {
            to_balance + value
        },
{
    if from_balance < value {
        return Err(Error::InsufficientBalance);
    }
    let new_from = from_balance - value;
    if same_account {
        return Ok((new_from, from_balance));
    }
    match to_balance.checked_add(value) {
        Some(new_to) => Ok((new_from, new_to)),
        None => Err(Error::Overflow),
    }
}

/// Conservation of supply: take any duplicate-free sequence of accounts
/// that includes every account holding an entry in the ledger. While the
/// ledger invariant holds — a freshly constructed ledger satisfies it and
/// every transfer preserves it, so it holds after any sequence of
/// transfers — the balances of those accounts sum to exactly the total
/// supply.
pub proof fn lemma_conservation(ledger: Azt, accounts: Seq<AccountId>)
    requires
        ledger.inv(),
        accounts.no_duplicates(),
        forall|k: int|
            0 <= k < ledger.spec_entries().len() ==> accounts.contains(
                ledger.spec_entries()[k].0,
            ),
    ensures
        sum_over_accounts(ledger.spec_entries(), accounts) == ledger.spec_total_supply() as int,
{
    lemma_sum_over_covering(ledger.spec_entries(), accounts);
}

/// Balances are never negative: whatever was done to a ledger, every
/// account holds a non-negative quantity of base units.
pub proof fn lemma_balance_never_negative(ledger: Azt, account: AccountId)
    ensures
        ledger.spec_balance_of(account) >= 0,
{
}

/// No single account can hold more than the total supply while the ledger
/// invariant holds.
pub proof fn lemma_balance_at_most_supply(ledger: Azt, account: AccountId)
    requires
        ledger.inv(),
    ensures
        ledger.spec_balance_of(account) <= ledger.spec_total_supply(),
{
    lemma_lookup_le_sum(ledger.spec_entries(), account);
}

} // verus!

