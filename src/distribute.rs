use vstd::prelude::*;
use crate::types::{AllocationHolding, Coin, ContractError, Dispatch, same_terms};
use crate::balance::bal;
use crate::split::{accrue, deposit_fits, fits, positive_weights, split_funds, weights};
use crate::state::{State, contains_address, holdings_wf, may_flush, valid_terms};

verus! {

/// The positions below `n` at which `p` holds, in increasing order.
pub open spec fn picked(n: int, p: spec_fn(int) -> bool) -> Seq<int>
    decreases n,
{
    if n <= 0 {
        Seq::empty()
    } else if p(n - 1) {
        picked(n - 1, p).push(n - 1)
    } else {
        picked(n - 1, p)
    }
}

/// An entry's balance has reached its threshold.
pub open spec fn ready(e: AllocationHolding) -> bool {
    bal(e.balance@, e.send_after.denom@) >= e.send_after.amount
}

/// `m` hands `funds` to the recipient of `e`, the way `e` asks.
pub open spec fn dispatches(m: Dispatch, e: AllocationHolding, funds: Seq<Coin>) -> bool {
    &&& m.recipient == e.contract
    &&& m.send_type == e.send_type
    &&& m.funds@ == funds
}

/// The balance of entry `i` once the deposit `f` is credited.
pub open spec fn accrued(es: Seq<AllocationHolding>, f: Seq<Coin>, i: int) -> Seq<Coin> {
    accrue(es[i].balance@, f, weights(es), i)
}

/// Entry `i` has reached its threshold once `f` is credited.
pub open spec fn due(es: Seq<AllocationHolding>, f: Seq<Coin>, i: int) -> bool {
    bal(accrued(es, f, i), es[i].send_after.denom@) >= es[i].send_after.amount
}

pub proof fn lemma_picked_ext(n: int, p: spec_fn(int) -> bool, q: spec_fn(int) -> bool)
    requires
        forall|i: int| 0 <= i < n ==> #[trigger] p(i) == q(i),
    ensures
        picked(n, p) == picked(n, q),
    decreases n,
{
    if n > 0 {
        lemma_picked_ext(n - 1, p, q);
    }
}

pub proof fn lemma_picked_bounds(n: int, p: spec_fn(int) -> bool)
    ensures
        forall|k: int|
            0 <= k < picked(n, p).len() ==> 0 <= #[trigger] picked(n, p)[k] < n && p(picked(n, p)[k]),
        forall|k1: int, k2: int|
            0 <= k1 < k2 < picked(n, p).len() ==> picked(n, p)[k1] < picked(n, p)[k2],
    decreases n,
{
    if n > 0 {
        lemma_picked_bounds(n - 1, p);
        let prev = picked(n - 1, p);
        let cur = picked(n, p);
        if p(n - 1) {
            assert(cur == prev.push(n - 1));
            assert forall|k: int| 0 <= k < cur.len() implies 0 <= #[trigger] cur[k] < n && p(cur[k]) by {
                if k < prev.len() {
                    assert(cur[k] == prev[k]);
                }
            };
            assert forall|k1: int, k2: int| 0 <= k1 < k2 < cur.len() implies cur[k1] < cur[k2] by {
                assert(cur[k1] == prev[k1]);
                if k2 < prev.len() {
                    assert(cur[k2] == prev[k2]);
                } else {
                    assert(0 <= prev[k1] < n - 1);
                }
            };
        }
    }
}

/// Sends every entry that has reached its threshold its whole balance, and empties it.
pub fn flush_ready(entries: &mut Vec<AllocationHolding>) -> (r: Vec<Dispatch>)
    ensures
        final(entries)@.len() == old(entries)@.len(),
        forall|i: int|
            0 <= i < old(entries)@.len() ==> same_terms(#[trigger] final(entries)@[i], old(entries)@[i])
                && final(entries)@[i].balance@ == if ready(old(entries)@[i]) {
                Seq::<Coin>::empty()
            } else {
                old(entries)@[i].balance@
            },
        r@.len() == picked(old(entries)@.len() as int, |i: int| ready(old(entries)@[i])).len(),
        forall|k: int|
            0 <= k < r@.len() ==> {
                let i = picked(old(entries)@.len() as int, |i: int| ready(old(entries)@[i]))[k];
                dispatches(#[trigger] r@[k], old(entries)@[i], old(entries)@[i].balance@)
            },
{
    let ghost orig = entries@;
    let ghost p = |i: int| ready(orig[i]);
    let n = entries.len();
    let mut r: Vec<Dispatch> = Vec::new();
    let mut i: usize = 0;
    while i < n
        invariant
            orig == old(entries)@,
            p == (|i: int| ready(orig[i])),
            n == orig.len(),
            entries@.len() == n,
            i <= n,
            forall|j: int|
                0 <= j < n ==> same_terms(#[trigger] entries@[j], orig[j])
                    && entries@[j].balance@ == if j < i && ready(orig[j]) {
                    Seq::<Coin>::empty()
                } else {
                    orig[j].balance@
                },
            r@.len() == picked(i as int, p).len(),
            forall|k: int|
                0 <= k < r@.len() ==> dispatches(
                    #[trigger] r@[k],
                    orig[picked(i as int, p)[k]],
                    orig[picked(i as int, p)[k]].balance@,
                ),
        decreases n - i,
    {
        let threshold = &entries[i].send_after;
        let have = crate::balance::amount_of(&entries[i].balance, &threshold.denom);
        if have >= threshold.amount {
            let funds = crate::balance::copy_coins(&entries[i].balance);
            let m = Dispatch {
                recipient: entries[i].contract.clone(),
                send_type: entries[i].send_type,
                funds,
            };
            r.push(m);
            let e = entries[i].with_balance(Vec::new());
            entries.set(i, e);
            proof {
                assert(p(i as int));
            }
        } else {
            proof {
                assert(!p(i as int));
            }
        }
        i = i + 1;
    }
    r
}

/// `i` is the first position of `f` whose amount is zero.
pub open spec fn first_zero(f: Seq<Coin>, i: int) -> bool {
    &&& 0 <= i < f.len()
    &&& f[i].amount == 0
    &&& forall|j: int| 0 <= j < i ==> f[j].amount != 0
}

pub open spec fn has_zero(f: Seq<Coin>) -> bool {
    exists|i: int| first_zero(f, i)
}

pub proof fn lemma_weights_positive(es: Seq<AllocationHolding>)
    requires
        holdings_wf(es),
    ensures
        positive_weights(weights(es)),
{
    assert forall|i: int| 0 <= i < weights(es).len() implies weights(es)[i] > 0 by {
        assert(valid_terms(es[i]));
    };
}

/// Position of the first zero amount, if any.
fn find_zero(f: &Vec<Coin>) -> (r: Option<usize>)
    ensures
        r matches Some(i) ==> first_zero(f@, i as int),
        r is None ==> forall|j: int| 0 <= j < f@.len() ==> f@[j].amount != 0,
{
    let mut i: usize = 0;
    while i < f.len()
        invariant
            i <= f@.len(),
            forall|j: int| 0 <= j < i ==> f@[j].amount != 0,
        decreases f@.len() - i,
    {
        if f[i].amount == 0 {
            return Some(i);
        }
        i = i + 1;
    }
    None
}

/// What `deposit` does on `s`: which error it returns, or the state `t` and the
/// dispatches it produces.
pub open spec fn deposit_post(
    s: State,
    caller: Seq<char>,
    funds: Seq<Coin>,
    flush: bool,
    t: State,
    r: Result<Vec<Dispatch>, ContractError>,
) -> bool {
    &&& (funds.len() == 0 ==> r == Err::<Vec<Dispatch>, ContractError>(ContractError::NoFundsError))
    &&& (forall|i: int|
            first_zero(funds, i) ==> r == Err::<Vec<Dispatch>, ContractError>(
                ContractError::ZeroAmount { denom: funds[i].denom },
            ))
    &&& (funds.len() > 0 && !has_zero(funds) && s.holdings@.len() == 0 ==> r == Err::<Vec<Dispatch>, ContractError>(ContractError::EmptyRegistry))
    &&& (funds.len() > 0 && !has_zero(funds) && s.holdings@.len() > 0 && !fits(s.holdings@, funds)
        ==> r == Err::<Vec<Dispatch>, ContractError>(ContractError::BalanceOverflow))
    &&& (r is Ok <==> funds.len() > 0 && !has_zero(funds) && s.holdings@.len() > 0 && fits(
        s.holdings@,
        funds,
    ))
    &&& (r is Err ==> t == s)
    &&& (r is Ok ==> {
            let es = s.holdings@;
            let n = es.len() as int;
            let flushing = flush && may_flush(s, caller);
            let msgs = r->Ok_0@;
            &&& t.config == s.config
            &&& t.flush_whitelist == s.flush_whitelist
            &&& t.holdings@.len() == n
            &&& forall|i: int|
                0 <= i < n ==> same_terms(#[trigger] t.holdings@[i], es[i])
                    && t.holdings@[i].balance@ == if flushing && due(es, funds, i) {
                    Seq::<Coin>::empty()
                } else {
                    accrued(es, funds, i)
                }
            &&& !flushing ==> msgs.len() == 0
            &&& flushing ==> msgs.len() == picked(n, |i: int| due(es, funds, i)).len()
            &&& flushing ==> forall|k: int|
                0 <= k < msgs.len() ==> {
                    let i = picked(n, |i: int| due(es, funds, i))[k];
                    dispatches(#[trigger] msgs[k], es[i], accrued(es, funds, i))
                }
        })
}

/// Credits every entry with its share of the deposit `funds`; then, if a flush is asked
/// for by the controller or a whitelisted address, sends each entry that has reached
/// its threshold its whole balance. A flush asked for by anyone else is ignored. A
/// deposit that would take a balance past `u128::MAX` is refused.
pub fn deposit(state: &mut State, caller: &String, funds: &Vec<Coin>, flush: bool) -> (r: Result<
    Vec<Dispatch>,
    ContractError,
>)
    requires
        old(state).wf(),
    ensures
        final(state).wf(),
        deposit_post(*old(state), caller@, funds@, flush, *final(state), r),
{
    if funds.len() == 0 {
        return Err(ContractError::NoFundsError);
    }
    match find_zero(funds) {
        Some(i) => {
            proof {
                assert forall|j: int| first_zero(funds@, j) implies j == i as int by {
                    if j < i as int {
                        assert(funds@[j].amount != 0);
                    }
                    if j > i as int {
                        assert(funds@[i as int].amount != 0);
                    }
                };
            }
            return Err(ContractError::ZeroAmount { denom: funds[i].denom.clone() });
        },
        None => {},
    }
    if state.holdings.len() == 0 {
        return Err(ContractError::EmptyRegistry);
    }
    if !deposit_fits(&state.holdings, funds) {
        return Err(ContractError::BalanceOverflow);
    }
    let ghost es = state.holdings@;
    let ghost n = es.len() as int;
    proof {
        lemma_weights_positive(es);
    }
    let flushing = flush && (*caller == state.config.gov_contract || contains_address(
        &state.flush_whitelist,
        caller,
    ));
    split_funds(&mut state.holdings, funds);
    let ghost mid = state.holdings@;
    let mut msgs: Vec<Dispatch> = Vec::new();
    if flushing {
        msgs = flush_ready(&mut state.holdings);
        proof {
            lemma_picked_ext(n, |i: int| ready(mid[i]), |i: int| due(es, funds@, i));
            let pk = picked(n, |i: int| due(es, funds@, i));
            lemma_picked_bounds(n, |i: int| due(es, funds@, i));
            assert forall|k: int| 0 <= k < msgs@.len() implies dispatches(
                #[trigger] msgs@[k],
                es[pk[k]],
                accrued(es, funds@, pk[k]),
            ) by {
                let i = pk[k];
                assert(0 <= i < n);
                assert(same_terms(mid[i], es[i]));
                assert(dispatches(msgs@[k], mid[i], mid[i].balance@));
            };
        }
    }
    proof {
        let hs = state.holdings@;
        assert forall|i: int, j: int| 0 <= i < j < hs.len() implies hs[i].name@ != hs[j].name@ by {
            assert(same_terms(hs[i], es[i]));
            assert(same_terms(hs[j], es[j]));
        };
        assert forall|i: int| 0 <= i < hs.len() implies valid_terms(#[trigger] hs[i]) by {
            assert(same_terms(hs[i], es[i]));
            assert(valid_terms(es[i]));
        };
    }
    Ok(msgs)
}

} // verus!
