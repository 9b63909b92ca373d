use vstd::prelude::*;
use crate::types::{AllocationHolding, Coin, ContractError, same_terms};
use crate::balance::{amount_of, bal, copy_coins, credit, credit_coins, lemma_credit_bal};
use crate::state::{State, valid_terms};

verus! {

/// The amount of `d` accrued over all entries.
pub open spec fn accrued_total(es: Seq<AllocationHolding>, d: Seq<char>) -> int
    decreases es.len(),
{
    if es.len() == 0 {
        0
    } else {
        accrued_total(es.drop_last(), d) + bal(es.last().balance@, d)
    }
}

pub open spec fn denoms_distinct(f: Seq<Coin>) -> bool {
    forall|i: int, j: int| 0 <= i < j < f.len() ==> f[i].denom@ != f[j].denom@
}

/// `k` is the first held coin of which less is held than has been accrued.
pub open spec fn first_deficit(es: Seq<AllocationHolding>, held: Seq<Coin>, k: int) -> bool {
    &&& 0 <= k < held.len()
    &&& held[k].amount < accrued_total(es, held[k].denom@)
    &&& forall|j: int| 0 <= j < k ==> held[j].amount >= accrued_total(es, held[j].denom@)
}

pub open spec fn no_deficit(es: Seq<AllocationHolding>, held: Seq<Coin>) -> bool {
    forall|j: int| 0 <= j < held.len() ==> held[j].amount >= accrued_total(es, held[j].denom@)
}

/// `d` is listed in the inventory.
pub open spec fn held_denom(held: Seq<Coin>, d: Seq<char>) -> bool {
    exists|k: int| 0 <= k < held.len() && held[k].denom@ == d
}

/// Some entry has accrued a denomination of which nothing is held.
pub open spec fn unheld_accrual(es: Seq<AllocationHolding>, held: Seq<Coin>) -> bool {
    exists|i: int, j: int|
        0 <= i < es.len() && 0 <= j < es[i].balance@.len() && #[trigger] unheld_at(es, held, i, j)
}

pub open spec fn unheld_at(es: Seq<AllocationHolding>, held: Seq<Coin>, i: int, j: int) -> bool {
    let d = es[i].balance@[j].denom@;
    !held_denom(held, d) && bal(es[i].balance@, d) > 0
}

/// The first entry's balance once every held surplus is credited to it.
pub open spec fn with_surplus(b: Seq<Coin>, held: Seq<Coin>, es: Seq<AllocationHolding>) -> Seq<Coin>
    decreases held.len(),
{
    if held.len() == 0 {
        b
    } else {
        let c = held.last();
        credit(with_surplus(b, held.drop_last(), es), c, c.amount - accrued_total(es, c.denom@))
    }
}

proof fn lemma_total_nonneg(es: Seq<AllocationHolding>, d: Seq<char>)
    ensures
        0 <= accrued_total(es, d),
        es.len() > 0 ==> bal(es[0].balance@, d) <= accrued_total(es, d),
    decreases es.len(),
{
    if es.len() > 0 {
        lemma_total_nonneg(es.drop_last(), d);
        if es.len() == 1 {
            assert(es.drop_last().len() == 0);
        } else {
            assert(es.drop_last()[0] == es[0]);
        }
    }
}

/// No entry holds more of a denomination than all entries together.
proof fn lemma_total_ge(es: Seq<AllocationHolding>, i: int, d: Seq<char>)
    requires
        0 <= i < es.len(),
    ensures
        bal(es[i].balance@, d) <= accrued_total(es, d),
    decreases es.len(),
{
    lemma_total_nonneg(es.drop_last(), d);
    if i < es.len() - 1 {
        assert(es.drop_last()[i] == es[i]);
        lemma_total_ge(es.drop_last(), i, d);
    }
}

fn in_inventory(held: &Vec<Coin>, d: &String) -> (r: bool)
    ensures
        r == held_denom(held@, d@),
{
    let mut k: usize = 0;
    while k < held.len()
        invariant
            k <= held@.len(),
            forall|j: int| 0 <= j < k ==> held@[j].denom@ != d@,
        decreases held@.len() - k,
    {
        if held[k].denom == *d {
            return true;
        }
        k = k + 1;
    }
    false
}

/// A denomination that some entry has accrued and of which nothing is held, if any.
fn find_unheld(es: &Vec<AllocationHolding>, held: &Vec<Coin>) -> (r: Option<String>)
    ensures
        r is None <==> !unheld_accrual(es@, held@),
        r matches Some(d) ==> !held_denom(held@, d@) && accrued_total(es@, d@) > 0,
{
    let mut i: usize = 0;
    while i < es.len()
        invariant
            i <= es@.len(),
            forall|a: int, b: int|
                0 <= a < i && 0 <= b < es@[a].balance@.len() ==> !#[trigger] unheld_at(es@, held@, a, b),
        decreases es@.len() - i,
    {
        let bs = &es[i].balance;
        let mut j: usize = 0;
        while j < bs.len()
            invariant
                i < es@.len(),
                bs == es@[i as int].balance,
                j <= bs@.len(),
                forall|a: int, b: int|
                    0 <= a < i && 0 <= b < es@[a].balance@.len() ==> !#[trigger] unheld_at(es@, held@, a, b),
                forall|b: int| 0 <= b < j ==> !#[trigger] unheld_at(es@, held@, i as int, b),
            decreases bs@.len() - j,
        {
            let d = &bs[j].denom;
            if !in_inventory(held, d) && amount_of(bs, d) > 0 {
                proof {
                    assert(unheld_at(es@, held@, i as int, j as int));
                    lemma_total_ge(es@, i as int, d@);
                }
                return Some(d.clone());
            }
            j = j + 1;
        }
        i = i + 1;
    }
    None
}

/// The amount of `d` accrued over all entries, or `None` where it exceeds `u128::MAX`.
fn total_accrued(es: &Vec<AllocationHolding>, d: &String) -> (r: Option<u128>)
    ensures
        r matches Some(t) ==> t == accrued_total(es@, d@),
        r is None ==> accrued_total(es@, d@) > u128::MAX,
{
    let mut t: u128 = 0;
    let mut i: usize = 0;
    while i < es.len()
        invariant
            i <= es@.len(),
            t == accrued_total(es@.take(i as int), d@),
        decreases es@.len() - i,
    {
        assert(es@.take(i + 1).drop_last() =~= es@.take(i as int));
        let b = amount_of(&es[i].balance, d);
        match t.checked_add(b) {
            Some(s) => {
                t = s;
            },
            None => {
                proof {
                    lemma_total_prefix_grows(es@, i + 1, d@);
                }
                return None;
            },
        }
        i = i + 1;
    }
    assert(es@.take(i as int) =~= es@);
    Some(t)
}

proof fn lemma_total_prefix_grows(es: Seq<AllocationHolding>, k: int, d: Seq<char>)
    requires
        0 <= k <= es.len(),
    ensures
        accrued_total(es.take(k), d) <= accrued_total(es, d),
    decreases es.len() - k,
{
    if k < es.len() {
        lemma_total_prefix_grows(es, k + 1, d);
        assert(es.take(k + 1).drop_last() =~= es.take(k));
    } else {
        assert(es.take(k) =~= es);
    }
}

/// What `reconcile` does on `s`.
pub open spec fn reconcile_post(
    s: State,
    held: Seq<Coin>,
    t: State,
    r: Result<(), ContractError>,
) -> bool {
    &&& (s.holdings@.len() == 0 ==> r == Err::<(), ContractError>(ContractError::EmptyRegistry))
    &&& (forall|k: int|
            s.holdings@.len() > 0 && first_deficit(s.holdings@, held, k) ==> r
                == Err::<(), ContractError>(ContractError::ReconcileDeficit { denom: held[k].denom }))
    &&& (s.holdings@.len() > 0 && no_deficit(s.holdings@, held) && unheld_accrual(s.holdings@, held)
        ==> (r matches Err(ContractError::ReconcileDeficit { denom }) && !held_denom(held, denom@)
        && accrued_total(s.holdings@, denom@) > 0))
    &&& (r is Ok <==> s.holdings@.len() > 0 && no_deficit(s.holdings@, held) && !unheld_accrual(
        s.holdings@,
        held,
    ))
    &&& (r is Err ==> t == s)
    &&& (r is Ok ==> {
            let es = s.holdings@;
            &&& t.config == s.config
            &&& t.flush_whitelist == s.flush_whitelist
            &&& t.holdings@.len() == es.len()
            &&& same_terms(t.holdings@[0], es[0])
            &&& t.holdings@[0].balance@ == with_surplus(es[0].balance@, held, es)
            &&& forall|i: int| 1 <= i < es.len() ==> #[trigger] t.holdings@[i] == es[i]
        })
}

/// Brings the books in line with what is actually held: for each coin of `held` (one per
/// denomination), whatever is held beyond what the entries have accrued is credited to
/// the first entry. Fails, changing nothing, where less is held than was accrued, a
/// denomination missing from `held` counting as none held.
pub fn reconcile(state: &mut State, held: &Vec<Coin>) -> (r: Result<(), ContractError>)
    requires
        old(state).wf(),
        denoms_distinct(held@),
    ensures
        final(state).wf(),
        reconcile_post(*old(state), held@, *final(state), r),
{
    if state.holdings.len() == 0 {
        return Err(ContractError::EmptyRegistry);
    }
    let ghost es = state.holdings@;
    let mut surplus: Vec<u128> = Vec::new();
    let mut k: usize = 0;
    while k < held.len()
        invariant
            *state == *old(state),
            old(state).wf(),
            es == state.holdings@,
            es.len() > 0,
            denoms_distinct(held@),
            k <= held@.len(),
            surplus@.len() == k,
            forall|j: int| 0 <= j < k ==> held@[j].amount >= accrued_total(es, held@[j].denom@),
            forall|j: int|
                0 <= j < k ==> surplus@[j] == held@[j].amount - accrued_total(es, held@[j].denom@),
        decreases held@.len() - k,
    {
        let deficit = match total_accrued(&state.holdings, &held[k].denom) {
            Some(t) => {
                if t <= held[k].amount {
                    surplus.push(held[k].amount - t);
                    false
                } else {
                    assert(held@[k as int].amount < accrued_total(es, held@[k as int].denom@));
                    true
                }
            },
            None => {
                assert(held@[k as int].amount < accrued_total(es, held@[k as int].denom@));
                true
            },
        };
        if deficit {
            proof {
                assert(first_deficit(es, held@, k as int));
                assert forall|j: int| first_deficit(es, held@, j) implies j == k as int by {
                    if j > k as int {
                        assert(held@[k as int].amount >= accrued_total(es, held@[k as int].denom@));
                    }
                };
            }
            return Err(ContractError::ReconcileDeficit { denom: held[k].denom.clone() });
        }
        k = k + 1;
    }
    match find_unheld(&state.holdings, held) {
        Some(d) => {
            return Err(ContractError::ReconcileDeficit { denom: d });
        },
        None => {},
    }
    let mut b = copy_coins(&state.holdings[0].balance);
    assert(held@.take(0) =~= Seq::<Coin>::empty());
    let mut k: usize = 0;
    while k < held.len()
        invariant
            *state == *old(state),
            old(state).wf(),
            es == state.holdings@,
            es.len() > 0,
            denoms_distinct(held@),
            k <= held@.len(),
            surplus@.len() == held@.len(),
            forall|j: int|
                0 <= j < held@.len() ==> held@[j].amount >= accrued_total(es, held@[j].denom@)
                    && surplus@[j] == held@[j].amount - accrued_total(es, held@[j].denom@),
            b@ == with_surplus(es[0].balance@, held@.take(k as int), es),
            forall|j: int|
                k <= j < held@.len() ==> #[trigger] bal(b@, held@[j].denom@) == bal(
                    es[0].balance@,
                    held@[j].denom@,
                ),
        decreases held@.len() - k,
    {
        proof {
            let d = held@[k as int].denom@;
            lemma_total_nonneg(es, d);
            assert(held@.take(k + 1).drop_last() =~= held@.take(k as int));
        }
        credit_coins(&mut b, &held[k], surplus[k]);
        proof {
            let c = held@[k as int];
            let prev = with_surplus(es[0].balance@, held@.take(k as int), es);
            assert forall|j: int| k + 1 <= j < held@.len() implies #[trigger] bal(b@, held@[j].denom@)
                == bal(es[0].balance@, held@[j].denom@) by {
                lemma_credit_bal(prev, c, surplus@[k as int] as int, held@[j].denom@);
                assert(held@[k as int].denom@ != held@[j].denom@);
            };
        }
        k = k + 1;
    }
    assert(held@.take(k as int) =~= held@);
    let e = state.holdings[0].with_balance(b);
    state.holdings.set(0, e);
    proof {
        let t = state.holdings@;
        assert forall|a: int, c: int| 0 <= a < c < t.len() implies t[a].name@ != t[c].name@ by {
            assert(es[a].name@ != es[c].name@);
        };
        assert forall|a: int| 0 <= a < t.len() implies valid_terms(#[trigger] t[a]) by {
            assert(valid_terms(es[a]));
        };
    }
    Ok(())
}

} // verus!
