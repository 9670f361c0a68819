//! The currency ledger: account balances, deposits, and transfers.
//!
//! Balances are held as an association list from account to balance. The
//! total held across all accounts never exceeds `MAX_TOTAL_ISSUANCE` and
//! transfers conserve it exactly, which is why a billing pass whose amount
//! is covered by the payer's balance can never fail halfway through.
//!
//! This is a deliberate modeling choice: with the ledger inside the engine
//! a transfer whose payer holds the amount provably succeeds, since the
//! issuance cap rules out overflow on the recipient's side. An external
//! ledger could refuse a transfer and force the billing pass to be
//! retried; that failure mode has no counterpart here, and a pass either
//! completes in full or is never started.

use vstd::prelude::*;
use crate::contracts::Error;

verus! {

/// Upper bound on the total amount in circulation; deposits beyond it are
/// refused so that no transfer can overflow a balance.
pub const MAX_TOTAL_ISSUANCE: u128 = 170141183460469231731687303715884105728;

/// Sum of all balances of the ledger.
pub open spec fn ledger_total(s: Seq<(u64, u128)>) -> int
    decreases s.len(),
{
    if s.len() == 0 {
        0
    } else {
        s.first().1 + ledger_total(s.drop_first())
    }
}

/// Every account appears at most once.
pub open spec fn accounts_unique(s: Seq<(u64, u128)>) -> bool {
    forall|i: int, j: int| 0 <= i < j < s.len() ==> (#[trigger] s[i]).0 != (#[trigger] s[j]).0
}

/// Index of the first entry of an account, or `-1` when it has none.
pub open spec fn spec_find(s: Seq<(u64, u128)>, account: u64) -> int
    decreases s.len(),
{
    if s.len() == 0 {
        -1
    } else if s.first().0 == account {
        0
    } else {
        let r = spec_find(s.drop_first(), account);
        if r == -1 {
            -1
        } else {
            r + 1
        }
    }
}

/// Free balance of an account; an account with no entry holds nothing.
pub open spec fn spec_balance_of(s: Seq<(u64, u128)>, account: u64) -> u128 {
    if spec_find(s, account) == -1 {
        0
    } else {
        s[spec_find(s, account)].1
    }
}

/// The ledger after moving `amount` from one account to another: the
/// payer's entry shrinks and the recipient's entry grows or is created.
pub open spec fn spec_apply_transfer(s: Seq<(u64, u128)>, from: u64, to: u64, amount: u128) -> Seq<
    (u64, u128),
> {
    if amount == 0 || from == to {
        s
    } else {
        let fi = spec_find(s, from);
        let s1 = s.update(fi, (from, (s[fi].1 - amount) as u128));
        let ti = spec_find(s1, to);
        if ti == -1 {
            s1.push((to, amount))
        } else {
            s1.update(ti, (to, (s1[ti].1 + amount) as u128))
        }
    }
}

/// The ledger after a deposit into one account.
pub open spec fn spec_apply_deposit(s: Seq<(u64, u128)>, account: u64, amount: u128) -> Seq<
    (u64, u128),
> {
    let i = spec_find(s, account);
    if i == -1 {
        s.push((account, amount))
    } else {
        s.update(i, (account, (s[i].1 + amount) as u128))
    }
}

/// `spec_find` lands on an entry of the account it looks for.
pub proof fn lemma_find_properties(s: Seq<(u64, u128)>, account: u64)
    ensures
        spec_find(s, account) == -1 ==> forall|i: int|
            0 <= i < s.len() ==> (#[trigger] s[i]).0 != account,
        spec_find(s, account) != -1 ==> 0 <= spec_find(s, account) < s.len() && s[spec_find(
            s,
            account,
        )].0 == account,
        spec_find(s, account) != -1 ==> forall|i: int|
            0 <= i < spec_find(s, account) ==> (#[trigger] s[i]).0 != account,
    decreases s.len(),
{
    if s.len() > 0 && s.first().0 != account {
        lemma_find_properties(s.drop_first(), account);
        assert(forall|i: int|
            1 <= i < s.len() ==> #[trigger] s[i] == s.drop_first()[i - 1]);
    }
}

/// Every balance is non-negative and no larger than the ledger's total.
pub proof fn lemma_ledger_element(s: Seq<(u64, u128)>, i: int)
    requires
        0 <= i < s.len(),
    ensures
        s[i].1 <= ledger_total(s),
        0 <= ledger_total(s),
    decreases s.len(),
{
    lemma_ledger_nonneg(s.drop_first());
    if i == 0 {
    } else {
        lemma_ledger_element(s.drop_first(), i - 1);
        assert(s.drop_first()[i - 1] == s[i]);
    }
}

/// The ledger's total is never negative.
pub proof fn lemma_ledger_nonneg(s: Seq<(u64, u128)>)
    ensures
        0 <= ledger_total(s),
    decreases s.len(),
{
    if s.len() > 0 {
        lemma_ledger_nonneg(s.drop_first());
    }
}

/// Two distinct entries together never exceed the ledger's total.
pub proof fn lemma_ledger_two_elements(s: Seq<(u64, u128)>, i: int, j: int)
    requires
        0 <= i < j < s.len(),
    ensures
        s[i].1 + s[j].1 <= ledger_total(s),
    decreases s.len(),
{
    if i == 0 {
        lemma_ledger_element(s.drop_first(), j - 1);
        assert(s.drop_first()[j - 1] == s[j]);
    } else {
        lemma_ledger_two_elements(s.drop_first(), i - 1, j - 1);
        assert(s.drop_first()[i - 1] == s[i]);
        assert(s.drop_first()[j - 1] == s[j]);
        lemma_ledger_nonneg(s.drop_first());
    }
}

/// Replacing one entry shifts the total by the difference of the balances.
pub proof fn lemma_ledger_update(s: Seq<(u64, u128)>, i: int, v: (u64, u128))
    requires
        0 <= i < s.len(),
    ensures
        ledger_total(s.update(i, v)) == ledger_total(s) - s[i].1 + v.1,
    decreases s.len(),
{
    if i == 0 {
        assert(s.update(0, v).drop_first() =~= s.drop_first());
    } else {
        assert(s.update(i, v).first() == s.first());
        assert(s.update(i, v).drop_first() =~= s.drop_first().update(i - 1, v));
        lemma_ledger_update(s.drop_first(), i - 1, v);
    }
}

/// Appending an entry adds its balance to the total.
pub proof fn lemma_ledger_push(s: Seq<(u64, u128)>, v: (u64, u128))
    ensures
        ledger_total(s.push(v)) == ledger_total(s) + v.1,
    decreases s.len(),
{
    let t = s.push(v);
    if s.len() == 0 {
        assert(t.first() == v);
        assert(t.drop_first() =~= Seq::<(u64, u128)>::empty());
        assert(ledger_total(t.drop_first()) == 0);
    } else {
        assert(t.first() == s.first());
        assert(t.drop_first() =~= s.drop_first().push(v));
        lemma_ledger_push(s.drop_first(), v);
        assert(ledger_total(t.drop_first()) == ledger_total(s.drop_first()) + v.1);
    }
}

/// A prefix of the ledger never exceeds the whole total.
pub proof fn lemma_ledger_take(s: Seq<(u64, u128)>, n: int)
    requires
        0 <= n <= s.len(),
    ensures
        ledger_total(s.take(n)) <= ledger_total(s),
    decreases s.len(),
{
    if n == 0 {
        lemma_ledger_nonneg(s);
    } else {
        assert(s.take(n).first() == s.first());
        assert(s.take(n).drop_first() =~= s.drop_first().take(n - 1));
        lemma_ledger_take(s.drop_first(), n - 1);
    }
}

/// Finds the position of an account's entry.
fn find_account(balances: &Vec<(u64, u128)>, account: u64) -> (r: Option<usize>)
    ensures
        match r {
            Some(i) => i < balances@.len() && spec_find(balances@, account) == i,
            None => spec_find(balances@, account) == -1,
        },
{
    let ghost s = balances@;
    proof {
        lemma_find_properties(s, account);
    }
    let mut i: usize = 0;
    while i < balances.len()
        invariant
            balances@ == s,
            0 <= i <= s.len(),
            spec_find(s, account) == -1 || spec_find(s, account) >= i,
        decreases s.len() - i,
    {
        if balances[i].0 == account {
            proof {
                lemma_find_prefix(s, account, i as int);
            }
            return Some(i);
        }
        proof {
            lemma_find_skip(s, account, i as int);
        }
        i = i + 1;
    }
    None
}

/// If entry `i` holds the account and no earlier entry does, `spec_find`
/// lands on `i`.
proof fn lemma_find_prefix(s: Seq<(u64, u128)>, account: u64, i: int)
    requires
        0 <= i < s.len(),
        s[i].0 == account,
        spec_find(s, account) == -1 || spec_find(s, account) >= i,
    ensures
        spec_find(s, account) == i,
{
    lemma_find_properties(s, account);
}

/// If entry `i` does not hold the account, `spec_find` passes it.
proof fn lemma_find_skip(s: Seq<(u64, u128)>, account: u64, i: int)
    requires
        0 <= i < s.len(),
        s[i].0 != account,
        spec_find(s, account) == -1 || spec_find(s, account) >= i,
    ensures
        spec_find(s, account) == -1 || spec_find(s, account) >= i + 1,
{
    lemma_find_properties(s, account);
}

/// Free balance of an account.
pub fn balance_of(balances: &Vec<(u64, u128)>, account: u64) -> (r: u128)
    ensures
        r == spec_balance_of(balances@, account),
{
    match find_account(balances, account) {
        Some(i) => balances[i].1,
        None => 0,
    }
}

/// Deposits an amount into an account; refused when it would push the
/// total in circulation over `MAX_TOTAL_ISSUANCE`.
pub fn deposit(balances: &mut Vec<(u64, u128)>, account: u64, amount: u128) -> (r: Result<
    (),
    Error,
>)
    requires
        accounts_unique(old(balances)@),
        ledger_total(old(balances)@) <= MAX_TOTAL_ISSUANCE,
    ensures
        accounts_unique(final(balances)@),
        ledger_total(final(balances)@) <= MAX_TOTAL_ISSUANCE,
        match r {
            Ok(()) => {
                &&& final(balances)@ == spec_apply_deposit(old(balances)@, account, amount)
                &&& ledger_total(final(balances)@) == ledger_total(old(balances)@) + amount
            },
            Err(e) => {
                &&& e == Error::BalanceOverflow
                &&& final(balances)@ == old(balances)@
                &&& ledger_total(old(balances)@) + amount > MAX_TOTAL_ISSUANCE
            },
        },
{
    let ghost s = balances@;
    let mut total: u128 = 0;
    let mut i: usize = 0;
    while i < balances.len()
        invariant
            balances@ == s,
            0 <= i <= s.len(),
            total == ledger_total(s.take(i as int)),
            ledger_total(s) <= MAX_TOTAL_ISSUANCE,
        decreases s.len() - i,
    {
        proof {
            lemma_ledger_take(s, i as int + 1);
            assert(s.take(i as int + 1).drop_last() =~= s.take(i as int));
            lemma_ledger_last(s.take(i as int + 1));
        }
        total = total + balances[i].1;
        i = i + 1;
    }
    proof {
        assert(s.take(s.len() as int) =~= s);
    }
    if amount > MAX_TOTAL_ISSUANCE - total {
        return Err(Error::BalanceOverflow);
    }
    match find_account(balances, account) {
        Some(idx) => {
            proof {
                lemma_find_properties(s, account);
                lemma_ledger_element(s, idx as int);
                lemma_ledger_update(s, idx as int, (account, (s[idx as int].1 + amount) as u128));
            }
            let updated: u128 = balances[idx].1 + amount;
            balances[idx] = (account, updated);
        },
        None => {
            proof {
                lemma_find_properties(s, account);
                lemma_ledger_push(s, (account, amount));
            }
            balances.push((account, amount));
        },
    }
    Ok(())
}

/// A non-empty ledger's total is its last balance plus the rest.
proof fn lemma_ledger_last(s: Seq<(u64, u128)>)
    requires
        s.len() > 0,
    ensures
        ledger_total(s) == ledger_total(s.drop_last()) + s.last().1,
    decreases s.len(),
{
    if s.len() == 1 {
        assert(s.drop_last() =~= Seq::<(u64, u128)>::empty());
        assert(s.drop_first() =~= Seq::<(u64, u128)>::empty());
    } else {
        lemma_ledger_last(s.drop_first());
        assert(s.drop_first().drop_last() =~= s.drop_last().drop_first());
        assert(s.drop_first().last() == s.last());
        assert(s.drop_last().first() == s.first());
    }
}

/// Moves an amount between two accounts. The payer must hold it; the
/// total in circulation is conserved, so the recipient's balance cannot
/// overflow.
pub fn transfer(balances: &mut Vec<(u64, u128)>, from: u64, to: u64, amount: u128)
    requires
        accounts_unique(old(balances)@),
        ledger_total(old(balances)@) <= MAX_TOTAL_ISSUANCE,
        spec_balance_of(old(balances)@, from) >= amount,
    ensures
        accounts_unique(final(balances)@),
        final(balances)@ == spec_apply_transfer(old(balances)@, from, to, amount),
        ledger_total(final(balances)@) == ledger_total(old(balances)@),
        spec_balance_of(final(balances)@, to) == if from == to || amount == 0 {
            spec_balance_of(old(balances)@, to)
        } else {
            (spec_balance_of(old(balances)@, to) + amount) as u128
        },
        spec_balance_of(final(balances)@, from) == if from == to || amount == 0 {
            spec_balance_of(old(balances)@, from)
        } else {
            (spec_balance_of(old(balances)@, from) - amount) as u128
        },
        forall|a: u64|
            a != from && a != to ==> #[trigger] spec_balance_of(final(balances)@, a)
                == spec_balance_of(old(balances)@, a),
{
    let ghost s = balances@;
    if amount == 0 || from == to {
        return;
    }
    let fi = match find_account(balances, from) {
        Some(i) => i,
        None => {
            proof {
                assert(spec_balance_of(s, from) == 0);
            }
            return;  // unreachable: the payer holds a positive amount
        },
    };
    proof {
        lemma_find_properties(s, from);
        lemma_ledger_element(s, fi as int);
        lemma_ledger_update(s, fi as int, (from, (s[fi as int].1 - amount) as u128));
    }
    let reduced: u128 = balances[fi].1 - amount;
    balances[fi] = (from, reduced);
    let ghost s1 = balances@;
    proof {
        assert(accounts_unique(s1)) by {
            assert(forall|i: int|
                0 <= i < s1.len() ==> (#[trigger] s1[i]).0 == s[i].0);
        }
    }
    match find_account(balances, to) {
        Some(ti) => {
            proof {
                lemma_find_properties(s1, to);
                lemma_find_same_accounts(s, s1, to);
                lemma_find_properties(s, to);
                assert(ti != fi);
                assert(s1[ti as int].1 == s[ti as int].1);
                lemma_ledger_element(s1, ti as int);
                lemma_ledger_nonneg(s1);
                lemma_ledger_two_sum(s1, fi as int, ti as int);
                lemma_ledger_update(s1, ti as int, (to, (s1[ti as int].1 + amount) as u128));
            }
            let increased: u128 = balances[ti].1 + amount;
            balances[ti] = (to, increased);
            proof {
                lemma_balance_after_update(s1, ti as int, to, amount);
                let t = balances@;
                assert(accounts_unique(t)) by {
                    assert(forall|i: int|
                        0 <= i < t.len() ==> (#[trigger] t[i]).0 == s1[i].0);
                }
                assert(t[fi as int] == s1[fi as int]);
                lemma_balance_at(t, fi as int);
                lemma_balance_at(s, fi as int);
                assert forall|a: u64| a != from && a != to implies #[trigger] spec_balance_of(
                    t,
                    a,
                ) == spec_balance_of(s, a) by {
                    lemma_balance_other(s, fi as int, (from, (s[fi as int].1 - amount) as u128), a);
                    lemma_balance_other(s1, ti as int, (to, (s1[ti as int].1 + amount) as u128), a);
                }
            }
        },
        None => {
            proof {
                lemma_find_properties(s1, to);
                lemma_find_same_accounts(s, s1, to);
                lemma_find_properties(s, to);
                assert(spec_balance_of(s, to) == 0);
                lemma_ledger_push(s1, (to, amount));
                lemma_balance_after_push(s1, to, amount);
            }
            balances.push((to, amount));
            proof {
                let t = balances@;
                lemma_balance_push_other(s1, (to, amount), from);
                lemma_balance_at(s1, fi as int);
                lemma_balance_at(s, fi as int);
                assert forall|a: u64| a != from && a != to implies #[trigger] spec_balance_of(
                    t,
                    a,
                ) == spec_balance_of(s, a) by {
                    lemma_balance_other(s, fi as int, (from, (s[fi as int].1 - amount) as u128), a);
                    lemma_balance_push_other(s1, (to, amount), a);
                }
            }
        },
    }
}

/// Helper: two entries (in either order) never exceed the total.
proof fn lemma_ledger_two_sum(s: Seq<(u64, u128)>, i: int, j: int)
    requires
        0 <= i < s.len(),
        0 <= j < s.len(),
        i != j,
    ensures
        s[i].1 + s[j].1 <= ledger_total(s),
{
    if i < j {
        lemma_ledger_two_elements(s, i, j);
    } else {
        lemma_ledger_two_elements(s, j, i);
    }
}

/// Updating an entry in place moves only that account's balance.
proof fn lemma_balance_after_update(s: Seq<(u64, u128)>, i: int, account: u64, amount: u128)
    requires
        accounts_unique(s),
        0 <= i < s.len(),
        s[i].0 == account,
        s[i].1 + amount <= u128::MAX,
    ensures
        spec_balance_of(s.update(i, (account, (s[i].1 + amount) as u128)), account)
            == s[i].1 + amount,
    decreases s.len(),
{
    let t = s.update(i, (account, (s[i].1 + amount) as u128));
    lemma_find_unique(s, account, i);
    lemma_find_same_accounts(s, t, account);
    lemma_find_unique(t, account, i);
}

/// Appending a new account's entry gives it that balance.
proof fn lemma_balance_after_push(s: Seq<(u64, u128)>, account: u64, amount: u128)
    requires
        spec_find(s, account) == -1,
    ensures
        spec_balance_of(s.push((account, amount)), account) == amount,
    decreases s.len(),
{
    let t = s.push((account, amount));
    lemma_find_properties(s, account);
    lemma_find_unique(t, account, s.len() as int);
}

/// Updating an entry touches no other account's balance.
proof fn lemma_balance_other(s: Seq<(u64, u128)>, i: int, v: (u64, u128), a: u64)
    requires
        0 <= i < s.len(),
        s[i].0 == v.0,
        a != v.0,
    ensures
        spec_balance_of(s.update(i, v), a) == spec_balance_of(s, a),
{
    let t = s.update(i, v);
    lemma_find_same_accounts(s, t, a);
    lemma_find_properties(s, a);
    lemma_find_properties(t, a);
}

/// Appending another account's entry leaves its position unchanged.
proof fn lemma_find_push_other(s: Seq<(u64, u128)>, v: (u64, u128), a: u64)
    requires
        a != v.0,
    ensures
        spec_find(s.push(v), a) == spec_find(s, a),
    decreases s.len(),
{
    let t = s.push(v);
    if s.len() == 0 {
        assert(t.first() == v);
        assert(t.drop_first() =~= Seq::<(u64, u128)>::empty());
        assert(spec_find(t.drop_first(), a) == -1);
        assert(spec_find(t, a) == -1);
        assert(spec_find(s, a) == -1);
    } else {
        assert(t.first() == s.first());
        assert(t.drop_first() =~= s.drop_first().push(v));
        lemma_find_push_other(s.drop_first(), v, a);
        assert(spec_find(t.drop_first(), a) == spec_find(s.drop_first(), a));
        if s.first().0 == a {
            assert(spec_find(t, a) == 0);
            assert(spec_find(s, a) == 0);
        } else {
            assert(spec_find(t, a) == (if spec_find(t.drop_first(), a) == -1 {
                -1int
            } else {
                spec_find(t.drop_first(), a) + 1
            }));
            assert(spec_find(s, a) == (if spec_find(s.drop_first(), a) == -1 {
                -1int
            } else {
                spec_find(s.drop_first(), a) + 1
            }));
        }
    }
}

/// Appending another account's entry touches no existing balance.
proof fn lemma_balance_push_other(s: Seq<(u64, u128)>, v: (u64, u128), a: u64)
    requires
        a != v.0,
    ensures
        spec_balance_of(s.push(v), a) == spec_balance_of(s, a),
{
    lemma_find_push_other(s, v, a);
    lemma_find_properties(s, a);
    if spec_find(s, a) != -1 {
        assert(s.push(v)[spec_find(s, a)] == s[spec_find(s, a)]);
    }
}

/// An entry's balance is what `spec_balance_of` reads for its account.
proof fn lemma_balance_at(s: Seq<(u64, u128)>, i: int)
    requires
        accounts_unique(s),
        0 <= i < s.len(),
    ensures
        spec_balance_of(s, s[i].0) == s[i].1,
{
    lemma_find_unique(s, s[i].0, i);
}

/// When entry `i` holds the account and accounts are unique up to `i`,
/// `spec_find` lands on `i`.
proof fn lemma_find_unique(s: Seq<(u64, u128)>, account: u64, i: int)
    requires
        0 <= i < s.len(),
        s[i].0 == account,
        forall|j: int| 0 <= j < i ==> (#[trigger] s[j]).0 != account,
    ensures
        spec_find(s, account) == i,
        spec_balance_of(s, account) == s[i].1,
    decreases s.len(),
{
    if i > 0 {
        lemma_find_unique(s.drop_first(), account, i - 1);
        assert(forall|j: int|
            0 <= j < i - 1 ==> #[trigger] s.drop_first()[j] == s[j + 1]);
        assert(s.drop_first()[i - 1] == s[i]);
    }
}

/// Two ledgers with the same accounts in the same order are searched the
/// same way.
proof fn lemma_find_same_accounts(s: Seq<(u64, u128)>, t: Seq<(u64, u128)>, account: u64)
    requires
        s.len() == t.len(),
        forall|i: int| 0 <= i < s.len() ==> (#[trigger] s[i]).0 == (#[trigger] t[i]).0,
    ensures
        spec_find(s, account) == spec_find(t, account),
    decreases s.len(),
{
    if s.len() > 0 {
        assert(forall|i: int|
            0 <= i < s.len() - 1 ==> #[trigger] s.drop_first()[i] == s[i + 1]);
        assert(forall|i: int|
            0 <= i < t.len() - 1 ==> #[trigger] t.drop_first()[i] == t[i + 1]);
        lemma_find_same_accounts(s.drop_first(), t.drop_first(), account);
    }
}

} // verus!
