//! Ledger-wide laws, stated as public proof functions.

use vstd::prelude::*;

use crate::ledger::sum_balances;
use crate::ledger::TokenLedger;

verus! {

/// Conservation: in every well-formed ledger that holds a mint, the
/// balances of the mint's accounts sum to its recorded total supply.
/// Every operation preserves well-formedness, so this holds at every
/// observation point of any sequence of operations.
pub proof fn lemma_conservation(l: TokenLedger)
    requires
        l.wf(),
        l.mint_spec() is Some,
    ensures
        sum_balances(l.accounts_spec()) == l.supply_spec(),
{
}

/// Non-negativity: no account balance is ever negative, whatever
/// operations were applied or rejected.
pub proof fn lemma_non_negative(l: TokenLedger, k: int)
    requires
        0 <= k < l.accounts_spec().len(),
    ensures
        l.accounts_spec()[k].balance >= 0,
{
}

} // verus!
