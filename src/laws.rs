use vstd::prelude::*;
use crate::types::{AllocationHolding, Coin, ContractError, Dispatch, same_terms};
use crate::balance::{bal, lemma_absent};
use crate::split::{
    alloc_for, alloc_sum, fits, lemma_alloc_sum, lemma_received, received,
    total_of, weights,
};
use crate::state::{State, has_member};
use crate::distribute::{
    accrued, deposit_post, dispatches, due, first_zero, lemma_picked_bounds, lemma_weights_positive,
    picked,
};
use crate::governance::{accept_post, whitelist_add_post, whitelist_remove_post};

verus! {

/// A deposit is deterministic: on the same state and input, any two runs return the
/// same error, or leave the same balances and produce the same dispatches in the same
/// order.
pub proof fn lemma_deposit_deterministic(
    s: State,
    caller: Seq<char>,
    funds: Seq<Coin>,
    flush: bool,
    t1: State,
    r1: Result<Vec<Dispatch>, ContractError>,
    t2: State,
    r2: Result<Vec<Dispatch>, ContractError>,
)
    requires
        s.wf(),
        deposit_post(s, caller, funds, flush, t1, r1),
        deposit_post(s, caller, funds, flush, t2, r2),
    ensures
        r1 is Ok <==> r2 is Ok,
        r1 is Err ==> r1 == r2 && t1 == t2,
        r1 is Ok ==> {
            let m1 = r1->Ok_0@;
            let m2 = r2->Ok_0@;
            &&& t1.config == t2.config
            &&& t1.flush_whitelist == t2.flush_whitelist
            &&& t1.holdings@.len() == t2.holdings@.len()
            &&& forall|i: int|
                0 <= i < t1.holdings@.len() ==> same_terms(#[trigger] t1.holdings@[i], t2.holdings@[i])
                    && t1.holdings@[i].balance@ == t2.holdings@[i].balance@
            &&& m1.len() == m2.len()
            &&& forall|k: int|
                0 <= k < m1.len() ==> (#[trigger] m1[k]).recipient == m2[k].recipient
                    && m1[k].send_type == m2[k].send_type && m1[k].funds@ == m2[k].funds@
        },
{
    if funds.len() > 0 && exists|i: int| first_zero(funds, i) {
        let i = choose|i: int| first_zero(funds, i);
        assert(r1 == r2);
    }
    if r1 is Ok {
        let es = s.holdings@;
        let n = es.len() as int;
        assert forall|i: int| 0 <= i < t1.holdings@.len() implies same_terms(
            #[trigger] t1.holdings@[i],
            t2.holdings@[i],
        ) && t1.holdings@[i].balance@ == t2.holdings@[i].balance@ by {
            assert(same_terms(t1.holdings@[i], es[i]));
            assert(same_terms(t2.holdings@[i], es[i]));
        };
        let m1 = r1->Ok_0@;
        let m2 = r2->Ok_0@;
        let pk = picked(n, |i: int| due(es, funds, i));
        assert forall|k: int| 0 <= k < m1.len() implies (#[trigger] m1[k]).recipient
            == m2[k].recipient && m1[k].send_type == m2[k].send_type && m1[k].funds@
            == m2[k].funds@ by {
            assert(dispatches(m1[k], es[pk[k]], accrued(es, funds, pk[k])));
            assert(dispatches(m2[k], es[pk[k]], accrued(es, funds, pk[k])));
        };
    }
}

/// Every dispatch of a deposit goes to an entry whose balance had reached its
/// threshold, and carries that whole balance.
pub proof fn lemma_dispatch_meets_threshold(
    s: State,
    caller: Seq<char>,
    funds: Seq<Coin>,
    flush: bool,
    t: State,
    r: Result<Vec<Dispatch>, ContractError>,
)
    requires
        s.wf(),
        deposit_post(s, caller, funds, flush, t, r),
        r is Ok,
    ensures
        forall|k: int|
            0 <= k < r->Ok_0@.len() ==> exists|i: int|
                0 <= i < s.holdings@.len() && dispatches(
                    #[trigger] r->Ok_0@[k],
                    s.holdings@[i],
                    r->Ok_0@[k].funds@,
                ) && bal(r->Ok_0@[k].funds@, s.holdings@[i].send_after.denom@)
                    >= s.holdings@[i].send_after.amount,
{
    let es = s.holdings@;
    let n = es.len() as int;
    let p = |i: int| due(es, funds, i);
    lemma_picked_bounds(n, p);
    let msgs = r->Ok_0@;
    assert forall|k: int| 0 <= k < msgs.len() implies exists|i: int|
        0 <= i < n && dispatches(#[trigger] msgs[k], es[i], msgs[k].funds@) && bal(
            msgs[k].funds@,
            es[i].send_after.denom@,
        ) >= es[i].send_after.amount by {
        let i = picked(n, p)[k];
        assert(p(i));
        assert(dispatches(msgs[k], es[i], accrued(es, funds, i)));
    };
}

/// Handing over control takes two steps: before the activation height the nominee is
/// refused as not yet active, anyone else is refused as unauthorized, and from the
/// activation height on the nominee takes over, once; a second acceptance is refused.
pub proof fn lemma_accept_two_phase(
    s: State,
    caller: Seq<char>,
    now: u64,
    t: State,
    r: Result<(), ContractError>,
    caller2: Seq<char>,
    now2: u64,
    t2: State,
    r2: Result<(), ContractError>,
)
    requires
        s.wf(),
        s.config.new_gov_contract is Some,
        accept_post(s, caller, now, t, r),
        accept_post(t, caller2, now2, t2, r2),
    ensures
        ({
            let p = s.config.new_gov_contract->Some_0;
            let h = s.config.change_gov_contract_by_height->Some_0;
            &&& caller == p@ && now < h ==> r == Err::<(), ContractError>(
                ContractError::GovChangeNotYetActive,
            )
            &&& caller != p@ ==> r == Err::<(), ContractError>(ContractError::Unauthorized)
            &&& caller == p@ && now >= h ==> r is Ok && t.config.gov_contract == p
            &&& r is Ok ==> r2 == Err::<(), ContractError>(ContractError::Unauthorized)
        }),
{
}

/// Adding an address twice leaves the whitelist as adding it once did.
pub proof fn lemma_whitelist_add_idempotent(
    s: State,
    caller: Seq<char>,
    address: String,
    t1: State,
    r1: Result<(), ContractError>,
    t2: State,
    r2: Result<(), ContractError>,
)
    requires
        s.wf(),
        whitelist_add_post(s, caller, address, t1, r1),
        whitelist_add_post(t1, caller, address, t2, r2),
    ensures
        t2.flush_whitelist == t1.flush_whitelist,
        r2 is Ok <==> r1 is Ok,
        r1 is Err ==> r2 == r1,
{
    if r1 is Ok {
        if !has_member(s.flush_whitelist@, address@) {
            let l = t1.flush_whitelist@;
            assert(l[l.len() - 1]@ == address@);
        }
        assert(has_member(t1.flush_whitelist@, address@));
    }
}

/// Removing an address that is not whitelisted is no error and changes nothing.
pub proof fn lemma_whitelist_remove_absent(
    s: State,
    caller: Seq<char>,
    address: Seq<char>,
    t: State,
    r: Result<(), ContractError>,
)
    requires
        s.wf(),
        !has_member(s.flush_whitelist@, address),
        whitelist_remove_post(s, caller, address, t, r),
    ensures
        r is Ok <==> caller == s.config.gov_contract@,
        t == s,
{
}

pub open spec fn sum_to(n: int, g: spec_fn(int) -> int) -> int
    decreases n,
{
    if n <= 0 {
        0
    } else {
        sum_to(n - 1, g) + g(n - 1)
    }
}

/// The amount of `d` held by all entries together.
pub open spec fn held_total(es: Seq<AllocationHolding>, d: Seq<char>) -> int {
    sum_to(es.len() as int, |i: int| bal(es[i].balance@, d))
}

/// The amount of `d` carried by all dispatches together.
pub open spec fn sent_total(ms: Seq<Dispatch>, d: Seq<char>) -> int {
    sum_to(ms.len() as int, |k: int| bal(ms[k].funds@, d))
}

proof fn lemma_sum_ext(n: int, f: spec_fn(int) -> int, g: spec_fn(int) -> int)
    requires
        forall|i: int| 0 <= i < n ==> #[trigger] f(i) == g(i),
    ensures
        sum_to(n, f) == sum_to(n, g),
    decreases n,
{
    if n > 0 {
        lemma_sum_ext(n - 1, f, g);
    }
}

proof fn lemma_sum_add(n: int, h: spec_fn(int) -> int, f: spec_fn(int) -> int, g: spec_fn(int) -> int)
    requires
        forall|i: int| 0 <= i < n ==> #[trigger] h(i) == f(i) + g(i),
    ensures
        sum_to(n, h) == sum_to(n, f) + sum_to(n, g),
    decreases n,
{
    if n > 0 {
        lemma_sum_add(n - 1, h, f, g);
    }
}

proof fn lemma_sum_zero(n: int)
    ensures
        sum_to(n, |i: int| 0int) == 0,
    decreases n,
{
    if n > 0 {
        lemma_sum_zero(n - 1);
    }
}

proof fn lemma_sum_alloc(ws: Seq<int>, a: int, n: int)
    ensures
        sum_to(n, |i: int| alloc_for(ws, a, i)) == alloc_sum(ws, a, n),
    decreases n,
{
    if n > 0 {
        lemma_sum_alloc(ws, a, n - 1);
    }
}

/// Summing over the picked positions is summing where the predicate holds.
proof fn lemma_sum_picked(n: int, p: spec_fn(int) -> bool, g: spec_fn(int) -> int)
    ensures
        sum_to(picked(n, p).len() as int, |k: int| g(picked(n, p)[k])) == sum_to(
            n,
            |i: int| if p(i) { g(i) } else { 0 },
        ),
    decreases n,
{
    if n > 0 {
        lemma_sum_picked(n - 1, p, g);
        let prev = picked(n - 1, p);
        let cur = picked(n, p);
        if p(n - 1) {
            assert(cur == prev.push(n - 1));
            lemma_sum_ext(
                prev.len() as int,
                |k: int| g(cur[k]),
                |k: int| g(prev[k]),
            );
        } else {
            assert(cur == prev);
        }
    }
}

/// Every entry together receives, of each denomination, exactly what was deposited of it.
proof fn lemma_received_total(f: Seq<Coin>, ws: Seq<int>, d: Seq<char>)
    requires
        ws.len() > 0,
    ensures
        sum_to(ws.len() as int, |i: int| received(f, ws, i, d)) == total_of(f, d),
    decreases f.len(),
{
    let n = ws.len() as int;
    if f.len() == 0 {
        lemma_sum_zero(n);
        lemma_sum_ext(n, |i: int| received(f, ws, i, d), |i: int| 0int);
    } else {
        let g = f.drop_last();
        let c = f.last();
        lemma_received_total(g, ws, d);
        let extra = |i: int| if c.denom@ == d { alloc_for(ws, c.amount as int, i) } else { 0 };
        lemma_sum_add(n, |i: int| received(f, ws, i, d), |i: int| received(g, ws, i, d), extra);
        if c.denom@ == d {
            lemma_sum_alloc(ws, c.amount as int, n);
            lemma_alloc_sum(ws, c.amount as int);
            lemma_sum_ext(n, extra, |i: int| alloc_for(ws, c.amount as int, i));
        } else {
            lemma_sum_zero(n);
            lemma_sum_ext(n, extra, |i: int| 0int);
        }
    }
}

/// A deposit neither creates nor destroys value: of every denomination, what the
/// entries hold afterwards plus what was dispatched equals what they held before plus
/// what was deposited, rounding remainder included.
#[verifier::rlimit(50)]
pub proof fn lemma_deposit_conserves(
    s: State,
    caller: Seq<char>,
    funds: Seq<Coin>,
    flush: bool,
    t: State,
    r: Result<Vec<Dispatch>, ContractError>,
    d: Seq<char>,
)
    requires
        s.wf(),
        deposit_post(s, caller, funds, flush, t, r),
        r is Ok,
    ensures
        held_total(t.holdings@, d) + sent_total(r->Ok_0@, d) == held_total(s.holdings@, d)
            + total_of(funds, d),
{
    let es = s.holdings@;
    let n = es.len() as int;
    let ws = weights(es);
    let msgs = r->Ok_0@;
    let flushing = flush && crate::state::may_flush(s, caller);
    lemma_weights_positive(es);
    let acc = |i: int| bal(accrued(es, funds, i), d);
    let old_b = |i: int| bal(es[i].balance@, d);
    let new_b = |i: int| bal(t.holdings@[i].balance@, d);
    let rec = |i: int| received(funds, ws, i, d);
    assert forall|i: int| 0 <= i < n implies #[trigger] acc(i) == old_b(i) + rec(i) by {
        assert forall|e: Seq<char>| #[trigger] bal(es[i].balance@, e) + total_of(funds, e)
            <= u128::MAX by {
            assert(fits(es, funds));
            assert(0 <= i < es.len());
            assert(bal(es[i].balance@, e) + total_of(funds, e) <= u128::MAX);
        };
        lemma_received(es[i].balance@, funds, ws, i, d);
    };
    lemma_sum_add(n, acc, old_b, rec);
    lemma_received_total(funds, ws, d);
    assert(ws.len() == n);
    let p = |i: int| due(es, funds, i);
    let part = |i: int| if flushing && p(i) { acc(i) } else { 0 };
    assert forall|i: int| 0 <= i < n implies #[trigger] acc(i) == new_b(i) + part(i) by {
        if flushing && p(i) {
            lemma_absent(t.holdings@[i].balance@, d);
        }
    };
    lemma_sum_add(n, acc, new_b, part);
    if flushing {
        lemma_sum_ext(n, part, |i: int| if p(i) { acc(i) } else { 0 });
        lemma_sum_picked(n, p, acc);
        let pk = picked(n, p);
        lemma_picked_bounds(n, p);
        assert forall|k: int| 0 <= k < msgs.len() implies #[trigger] bal(msgs[k].funds@, d) == acc(
            pk[k],
        ) by {
            assert(dispatches(msgs[k], es[pk[k]], accrued(es, funds, pk[k])));
        };
        lemma_sum_ext(msgs.len() as int, |k: int| bal(msgs[k].funds@, d), |k: int| acc(pk[k]));
    } else {
        lemma_sum_zero(n);
        lemma_sum_ext(n, part, |i: int| 0int);
        lemma_sum_zero(msgs.len() as int);
    }
    assert(held_total(t.holdings@, d) == sum_to(n, new_b));
    assert(held_total(s.holdings@, d) == sum_to(n, old_b));
}

/// What the successful deposits among `results` dispatched of `d`.
pub open spec fn sent_by(results: Seq<Result<Vec<Dispatch>, ContractError>>, d: Seq<char>) -> int
    decreases results.len(),
{
    if results.len() == 0 {
        0
    } else {
        sent_by(results.drop_last(), d) + match results.last() {
            Ok(ms) => sent_total(ms@, d),
            Err(_) => 0,
        }
    }
}

/// What the successful deposits among `results` brought in of `d`.
pub open spec fn deposited_by(
    funds: Seq<Seq<Coin>>,
    results: Seq<Result<Vec<Dispatch>, ContractError>>,
    d: Seq<char>,
) -> int
    decreases results.len(),
{
    if results.len() == 0 || funds.len() == 0 {
        0
    } else {
        deposited_by(funds.drop_last(), results.drop_last(), d) + if results.last() is Ok {
            total_of(funds.last(), d)
        } else {
            0
        }
    }
}

/// Over any run of deposits, `states[k]` leading to `states[k + 1]` by the deposit of
/// `funds[k]`, no value is created or destroyed: of every denomination, what the entries
/// hold at the end plus everything dispatched equals what they held at the start plus
/// everything deposited.
pub proof fn lemma_deposits_conserve(
    states: Seq<State>,
    callers: Seq<Seq<char>>,
    funds: Seq<Seq<Coin>>,
    flushes: Seq<bool>,
    results: Seq<Result<Vec<Dispatch>, ContractError>>,
    d: Seq<char>,
)
    requires
        states.len() == funds.len() + 1,
        callers.len() == funds.len(),
        flushes.len() == funds.len(),
        results.len() == funds.len(),
        forall|k: int|
            0 <= k < funds.len() ==> #[trigger] states[k].wf() && deposit_post(
                states[k],
                callers[k],
                funds[k],
                flushes[k],
                states[k + 1],
                results[k],
            ),
    ensures
        held_total(states.last().holdings@, d) + sent_by(results, d) == held_total(
            states[0].holdings@,
            d,
        ) + deposited_by(funds, results, d),
    decreases funds.len(),
{
    let n = funds.len() as int;
    if n > 0 {
        let k = n - 1;
        assert forall|j: int| 0 <= j < funds.drop_last().len() implies #[trigger] states.drop_last()[j].wf()
            && deposit_post(
            states.drop_last()[j],
            callers.drop_last()[j],
            funds.drop_last()[j],
            flushes.drop_last()[j],
            states.drop_last()[j + 1],
            results.drop_last()[j],
        ) by {
            assert(states[j].wf());
        };
        lemma_deposits_conserve(
            states.drop_last(),
            callers.drop_last(),
            funds.drop_last(),
            flushes.drop_last(),
            results.drop_last(),
            d,
        );
        assert(states[k].wf());
        if results[k] is Ok {
            lemma_deposit_conserves(states[k], callers[k], funds[k], flushes[k], states[k + 1], results[k], d);
        }
    }
}

} // verus!
