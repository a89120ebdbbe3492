//! The ledger state machine: mint metadata, balance accounts, and the
//! operations that mutate them.

use vstd::prelude::*;

verus! {

/// A token type: its identifier, the principal allowed to mint, and the
/// total supply issued so far.
#[derive(Clone, Copy, Debug, PartialEq, Eq, Structural)]
pub struct Mint {
    pub id: u64,
    pub authority: u64,
    pub total_supply: u64,
}

/// A balance record for one (mint, owner) pair. An owner may hold several
/// accounts; each carries its own identifier.
#[derive(Clone, Copy, Debug, PartialEq, Eq, Structural)]
pub struct Account {
    pub id: u64,
    pub mint_id: u64,
    pub owner: u64,
    pub balance: u64,
}

/// Why an operation was rejected. Every rejection leaves the ledger
/// exactly as it was.
#[derive(Clone, Copy, Debug, PartialEq, Eq, Structural)]
pub enum LedgerError {
    AlreadyInitialized,
    DuplicateAccount,
    Unauthorized,
    AccountMintMismatch,
    Overflow,
    InsufficientFunds,
}

/// The sum of the balances of a sequence of accounts, as an unbounded
/// integer.
pub open spec fn sum_balances(s: Seq<Account>) -> int
    decreases s.len(),
{
    if s.len() == 0 {
        0
    } else {
        sum_balances(s.drop_last()) + s.last().balance
    }
}

proof fn lemma_sum_nonneg(s: Seq<Account>)
    ensures
        sum_balances(s) >= 0,
    decreases s.len(),
{
    if s.len() > 0 {
        lemma_sum_nonneg(s.drop_last());
    }
}

proof fn lemma_sum_one(s: Seq<Account>, i: int)
    requires
        0 <= i < s.len(),
    ensures
        s[i].balance <= sum_balances(s),
    decreases s.len(),
{
    if i == s.len() - 1 {
        lemma_sum_nonneg(s.drop_last());
    } else {
        lemma_sum_one(s.drop_last(), i);
    }
}

proof fn lemma_sum_two(s: Seq<Account>, i: int, j: int)
    requires
        0 <= i < s.len(),
        0 <= j < s.len(),
        i != j,
    ensures
        s[i].balance + s[j].balance <= sum_balances(s),
    decreases s.len(),
{
    if i == s.len() - 1 {
        lemma_sum_one(s.drop_last(), j);
    } else if j == s.len() - 1 {
        lemma_sum_one(s.drop_last(), i);
    } else {
        lemma_sum_two(s.drop_last(), i, j);
    }
}

proof fn lemma_sum_update(s: Seq<Account>, i: int, a: Account)
    requires
        0 <= i < s.len(),
    ensures
        sum_balances(s.update(i, a)) == sum_balances(s) - s[i].balance + a.balance,
    decreases s.len(),
{
    if i == s.len() - 1 {
        assert(s.update(i, a).drop_last() =~= s.drop_last());
    } else {
        assert(s.update(i, a).drop_last() =~= s.drop_last().update(i, a));
        lemma_sum_update(s.drop_last(), i, a);
    }
}

proof fn lemma_sum_push(s: Seq<Account>, a: Account)
    ensures
        sum_balances(s.push(a)) == sum_balances(s) + a.balance,
{
    assert(s.push(a).drop_last() =~= s);
}

/// The position of the first account in `s` whose identifier is `id`,
/// or -1 when none has it.
pub open spec fn find_index(s: Seq<Account>, id: u64) -> int
    decreases s.len(),
{
    if s.len() == 0 {
        -1
    } else if s[0].id == id {
        0
    } else {
        let r = find_index(s.subrange(1, s.len() as int), id);
        if r < 0 {
            -1
        } else {
            r + 1
        }
    }
}

proof fn lemma_find_index_char(s: Seq<Account>, id: u64)
    ensures
        -1 <= find_index(s, id) < s.len(),
        find_index(s, id) == -1 ==> forall|j: int|
            0 <= j < s.len() ==> (#[trigger] s[j]).id != id,
        find_index(s, id) >= 0 ==> s[find_index(s, id)].id == id && forall|j: int|
            0 <= j < find_index(s, id) ==> (#[trigger] s[j]).id != id,
    decreases s.len(),
{
    if s.len() == 0 {
    } else if s[0].id == id {
    } else {
        let t = s.subrange(1, s.len() as int);
        lemma_find_index_char(t, id);
        assert(forall|j: int| 1 <= j < s.len() ==> #[trigger] s[j] == t[j - 1]);
    }
}

/// One mint plus the accounts holding its balances. The host is expected
/// to serialize calls; each operation is synchronous and either fully
/// commits or fully fails.
pub struct TokenLedger {
    mint: Option<Mint>,
    accounts: Vec<Account>,
}

impl TokenLedger {
    /// The mint, if one has been created.
    pub closed spec fn mint_spec(self) -> Option<Mint> {
        self.mint
    }

    /// The accounts, in the order they were opened.
    pub closed spec fn accounts_spec(self) -> Seq<Account> {
        self.accounts@
    }

    /// Whether `mint_id` names the mint this ledger holds.
    pub open spec fn addresses_mint(self, mint_id: u64) -> bool {
        self.mint_spec() is Some && self.mint_spec()->Some_0.id == mint_id
    }

    /// The minting authority; meaningful once the mint exists.
    pub open spec fn authority_spec(self) -> u64 {
        self.mint_spec()->Some_0.authority
    }

    /// The recorded total supply; meaningful once the mint exists.
    pub open spec fn supply_spec(self) -> u64 {
        self.mint_spec()->Some_0.total_supply
    }

    /// Well-formedness: accounts exist only under a mint, are bound to it,
    /// carry pairwise-distinct identifiers, and their balances sum to the
    /// recorded total supply (the conservation invariant).
    pub open spec fn wf(self) -> bool {
        &&& (self.mint_spec() is None ==> self.accounts_spec().len() == 0)
        &&& (forall|k: int|
            0 <= k < self.accounts_spec().len() ==> self.mint_spec() is Some
                && (#[trigger] self.accounts_spec()[k]).mint_id == self.mint_spec()->Some_0.id)
        &&& (forall|k1: int, k2: int|
            #![trigger self.accounts_spec()[k1], self.accounts_spec()[k2]]
            0 <= k1 < self.accounts_spec().len() && 0 <= k2 < self.accounts_spec().len()
                && k1 != k2 ==> self.accounts_spec()[k1].id != self.accounts_spec()[k2].id)
        &&& (self.mint_spec() is Some ==> sum_balances(self.accounts_spec())
            == self.mint_spec()->Some_0.total_supply)
    }

    /// The position of the account with identifier `id`, or -1.
    pub open spec fn account_index(self, id: u64) -> int {
        find_index(self.accounts_spec(), id)
    }

    /// Whether an account with identifier `id` is open.
    pub open spec fn has_account(self, id: u64) -> bool {
        self.account_index(id) >= 0
    }

    /// The record of the account with identifier `id`; meaningful when
    /// that account is open.
    pub open spec fn account_spec(self, id: u64) -> Account {
        self.accounts_spec()[self.account_index(id)]
    }

    fn find_account(&self, id: u64) -> (r: Option<usize>)
        ensures
            r is Some <==> self.has_account(id),
            r is Some ==> r->Some_0 == self.account_index(id) && r->Some_0
                < self.accounts_spec().len() && self.account_spec(id).id == id,
    {
        proof {
            lemma_find_index_char(self.accounts_spec(), id);
        }
        let n = self.accounts.len();
        let mut k: usize = 0;
        while k < n
            invariant
                n == self.accounts_spec().len(),
                0 <= k <= n,
                forall|j: int| 0 <= j < k ==> (#[trigger] self.accounts_spec()[j]).id != id,
            decreases n - k,
        {
            if self.accounts[k].id == id {
                proof {
                    lemma_find_index_char(self.accounts_spec(), id);
                }
                return Some(k);
            }
            k = k + 1;
        }
        None
    }

    /// A ledger with no mint and no accounts.
    pub fn new() -> (r: TokenLedger)
        ensures
            r.wf(),
            r.mint_spec() is None,
            r.accounts_spec().len() == 0,
    {
        TokenLedger { mint: None, accounts: Vec::new() }
    }

    /// Create the mint: identifier `mint_id`, minting authority
    /// `authority`, supply zero. The host authenticates `authority` and
    /// allocates `mint_id`; the ledger only records them. Fails with
    /// `AlreadyInitialized` once a mint is present, and then changes
    /// nothing.
    pub fn create_mint(&mut self, mint_id: u64, authority: u64) -> (r: Result<
        Mint,
        LedgerError,
    >)
        requires
            old(self).wf(),
        ensures
            final(self).wf(),
            r is Err ==> *final(self) == *old(self),
            old(self).mint_spec() is Some ==> r == Err::<Mint, LedgerError>(
                LedgerError::AlreadyInitialized,
            ),
            old(self).mint_spec() is None ==> {
                let m = (Mint { id: mint_id, authority, total_supply: 0 });
                &&& r == Ok::<Mint, LedgerError>(m)
                &&& final(self).mint_spec() == Some(m)
                &&& final(self).accounts_spec() == old(self).accounts_spec()
            },
    {
        if self.mint.is_some() {
            return Err(LedgerError::AlreadyInitialized);
        }
        let m = Mint { id: mint_id, authority, total_supply: 0 };
        self.mint = Some(m);
        Ok(m)
    }

    /// Open a zero-balance account `account_id` for `owner` under the
    /// mint named by `mint_id`. An owner may open several accounts, each
    /// under its own identifier. Fails with `AccountMintMismatch` when
    /// `mint_id` does not name this ledger's mint, and with
    /// `DuplicateAccount` when `account_id` is already open; a failure
    /// changes nothing.
    pub fn open_account(&mut self, mint_id: u64, account_id: u64, owner: u64) -> (r: Result<
        Account,
        LedgerError,
    >)
        requires
            old(self).wf(),
        ensures
            final(self).wf(),
            r is Err ==> *final(self) == *old(self),
            !old(self).addresses_mint(mint_id) ==> r == Err::<Account, LedgerError>(
                LedgerError::AccountMintMismatch,
            ),
            old(self).addresses_mint(mint_id) && old(self).has_account(account_id) ==> r
                == Err::<Account, LedgerError>(LedgerError::DuplicateAccount),
            old(self).addresses_mint(mint_id) && !old(self).has_account(account_id) ==> {
                let a = (Account { id: account_id, mint_id, owner, balance: 0 });
                &&& r == Ok::<Account, LedgerError>(a)
                &&& final(self).mint_spec() == old(self).mint_spec()
                &&& final(self).accounts_spec() == old(self).accounts_spec().push(a)
            },
    {
        let m = match self.mint {
            Some(m) => m,
            None => { return Err(LedgerError::AccountMintMismatch) },
        };
        if m.id != mint_id {
            return Err(LedgerError::AccountMintMismatch);
        }
        if self.find_account(account_id).is_some() {
            return Err(LedgerError::DuplicateAccount);
        }
        let a = Account { id: account_id, mint_id, owner, balance: 0 };
        proof {
            lemma_find_index_char(self.accounts_spec(), account_id);
            lemma_sum_push(self.accounts_spec(), a);
        }
        self.accounts.push(a);
        Ok(a)
    }

    /// Mint `amount` new tokens into account `account_id`: the supply and
    /// the destination balance both grow by `amount`, atomically. Only the
    /// mint's recorded authority may mint; a caller that is not the
    /// authority is always rejected with `Unauthorized` and changes
    /// nothing, as every other failure does. `Overflow` is reported when
    /// the supply cannot take `amount` more; conservation then also
    /// protects the destination balance, so no separate balance check is
    /// needed.
    pub fn mint_to(&mut self, mint_id: u64, account_id: u64, amount: u64, caller: u64) -> (r:
        Result<(), LedgerError>)
        requires
            old(self).wf(),
        ensures
            final(self).wf(),
            r is Err ==> *final(self) == *old(self),
            !old(self).addresses_mint(mint_id) ==> r == Err::<(), LedgerError>(
                LedgerError::AccountMintMismatch,
            ),
            old(self).addresses_mint(mint_id) && caller != old(self).authority_spec() ==> r
                == Err::<(), LedgerError>(LedgerError::Unauthorized),
            old(self).addresses_mint(mint_id) && caller == old(self).authority_spec() && !old(
                self,
            ).has_account(account_id) ==> r == Err::<(), LedgerError>(
                LedgerError::AccountMintMismatch,
            ),
            old(self).addresses_mint(mint_id) && caller == old(self).authority_spec() && old(
                self,
            ).has_account(account_id) && old(self).supply_spec() + amount > u64::MAX ==> r
                == Err::<(), LedgerError>(LedgerError::Overflow),
            old(self).addresses_mint(mint_id) && caller == old(self).authority_spec() && old(
                self,
            ).has_account(account_id) && old(self).supply_spec() + amount <= u64::MAX ==> {
                let i = old(self).account_index(account_id);
                let a = old(self).account_spec(account_id);
                let a2 = (Account {
                    id: a.id,
                    mint_id: a.mint_id,
                    owner: a.owner,
                    balance: (a.balance + amount) as u64,
                });
                let m = old(self).mint_spec()->Some_0;
                let m2 = (Mint {
                    id: m.id,
                    authority: m.authority,
                    total_supply: (m.total_supply + amount) as u64,
                });
                &&& r == Ok::<(), LedgerError>(())
                &&& final(self).mint_spec() == Some(m2)
                &&& final(self).accounts_spec() == old(self).accounts_spec().update(i, a2)
            },
    {
        let m = match self.mint {
            Some(m) => m,
            None => { return Err(LedgerError::AccountMintMismatch) },
        };
        if m.id != mint_id {
            return Err(LedgerError::AccountMintMismatch);
        }
        if caller != m.authority {
            return Err(LedgerError::Unauthorized);
        }
        let i = match self.find_account(account_id) {
            Some(i) => i,
            None => { return Err(LedgerError::AccountMintMismatch) },
        };
        if amount > u64::MAX - m.total_supply {
            return Err(LedgerError::Overflow);
        }
        let a = self.accounts[i];
        proof {
            lemma_sum_one(self.accounts_spec(), i as int);
        }
        let a2 = Account { id: a.id, mint_id: a.mint_id, owner: a.owner, balance: a.balance
            + amount };
        proof {
            lemma_sum_update(self.accounts_spec(), i as int, a2);
        }
        self.mint = Some(
            Mint { id: m.id, authority: m.authority, total_supply: m.total_supply + amount },
        );
        self.accounts.set(i, a2);
        Ok(())
    }

    /// Move `amount` from account `from_id` to account `to_id`,
    /// atomically; the supply does not change. Only the owner of the
    /// source account may transfer, and the source balance must cover
    /// `amount`: a shortfall is always rejected with `InsufficientFunds`
    /// and, like every failure, changes nothing. A transfer from an
    /// account to itself succeeds and changes nothing. Conservation
    /// bounds both balances by the supply, so the destination balance
    /// cannot overflow.
    pub fn transfer(&mut self, mint_id: u64, from_id: u64, to_id: u64, amount: u64, caller: u64) -> (r: Result<(), LedgerError>)
        requires
            old(self).wf(),
        ensures
            final(self).wf(),
            r is Err ==> *final(self) == *old(self),
            !old(self).addresses_mint(mint_id) ==> r == Err::<(), LedgerError>(
                LedgerError::AccountMintMismatch,
            ),
            old(self).addresses_mint(mint_id) && !old(self).has_account(from_id) ==> r
                == Err::<(), LedgerError>(LedgerError::AccountMintMismatch),
            old(self).addresses_mint(mint_id) && old(self).has_account(from_id) && caller != old(
                self,
            ).account_spec(from_id).owner ==> r == Err::<(), LedgerError>(
                LedgerError::Unauthorized,
            ),
            old(self).addresses_mint(mint_id) && old(self).has_account(from_id) && caller == old(
                self,
            ).account_spec(from_id).owner && amount > old(self).account_spec(from_id).balance
                ==> r == Err::<(), LedgerError>(LedgerError::InsufficientFunds),
            old(self).addresses_mint(mint_id) && old(self).has_account(from_id) && caller == old(
                self,
            ).account_spec(from_id).owner && amount <= old(self).account_spec(from_id).balance
                && !old(self).has_account(to_id) ==> r == Err::<(), LedgerError>(
                LedgerError::AccountMintMismatch,
            ),
            old(self).addresses_mint(mint_id) && old(self).has_account(from_id) && caller == old(
                self,
            ).account_spec(from_id).owner && amount <= old(self).account_spec(from_id).balance
                && old(self).has_account(to_id) ==> r == Ok::<(), LedgerError>(())
                && final(self).mint_spec() == old(self).mint_spec() && {
                if from_id == to_id {
                    final(self).accounts_spec() == old(self).accounts_spec()
                } else {
                    let i = old(self).account_index(from_id);
                    let j = old(self).account_index(to_id);
                    let f = old(self).account_spec(from_id);
                    let t = old(self).account_spec(to_id);
                    let f2 = (Account {
                        id: f.id,
                        mint_id: f.mint_id,
                        owner: f.owner,
                        balance: (f.balance - amount) as u64,
                    });
                    let t2 = (Account {
                        id: t.id,
                        mint_id: t.mint_id,
                        owner: t.owner,
                        balance: (t.balance + amount) as u64,
                    });
                    final(self).accounts_spec() == old(self).accounts_spec().update(i, f2).update(
                        j,
                        t2,
                    )
                }
            },
    {
        let m = match self.mint {
            Some(m) => m,
            None => { return Err(LedgerError::AccountMintMismatch) },
        };
        if m.id != mint_id {
            return Err(LedgerError::AccountMintMismatch);
        }
        let i = match self.find_account(from_id) {
            Some(i) => i,
            None => { return Err(LedgerError::AccountMintMismatch) },
        };
        let f = self.accounts[i];
        if caller != f.owner {
            return Err(LedgerError::Unauthorized);
        }
        if amount > f.balance {
            return Err(LedgerError::InsufficientFunds);
        }
        let j = match self.find_account(to_id) {
            Some(j) => j,
            None => { return Err(LedgerError::AccountMintMismatch) },
        };
        if i == j {
            return Ok(());
        }
        let t = self.accounts[j];
        proof {
            lemma_sum_two(self.accounts_spec(), i as int, j as int);
        }
        let f2 = Account { id: f.id, mint_id: f.mint_id, owner: f.owner, balance: f.balance
            - amount };
        let t2 = Account { id: t.id, mint_id: t.mint_id, owner: t.owner, balance: t.balance
            + amount };
        proof {
            lemma_sum_update(self.accounts_spec(), i as int, f2);
            lemma_sum_update(self.accounts_spec().update(i as int, f2), j as int, t2);
        }
        self.accounts.set(i, f2);
        self.accounts.set(j, t2);
        Ok(())
    }

    /// The mint, if one has been created.
    pub fn mint(&self) -> (r: Option<Mint>)
        ensures
            r == self.mint_spec(),
    {
        self.mint
    }

    /// The record of account `id`, if that account is open.
    pub fn account(&self, id: u64) -> (r: Option<Account>)
        ensures
            r is Some <==> self.has_account(id),
            r is Some ==> r->Some_0 == self.account_spec(id),
    {
        match self.find_account(id) {
            Some(i) => Some(self.accounts[i]),
            None => None,
        }
    }
}

} // verus!
