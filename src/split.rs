use vstd::prelude::*;
use vstd::arithmetic::div_mod::{
    lemma_fundamental_div_mod, lemma_fundamental_div_mod_converse_div, lemma_div_is_ordered,
};
use crate::types::{AllocationHolding, Coin, same_terms};
use crate::balance::{amount_of, bal, credit, credit_coins, copy_coins, lemma_bal_bound, lemma_credit_bal};

verus! {

/// The weights of the entries, in registry order.
pub open spec fn weights(es: Seq<AllocationHolding>) -> Seq<int> {
    es.map_values(|e: AllocationHolding| e.allocation as int)
}

pub open spec fn wsum(ws: Seq<int>) -> int
    decreases ws.len(),
{
    if ws.len() == 0 {
        0
    } else {
        wsum(ws.drop_last()) + ws.last()
    }
}

/// The floor share of `a` for weight `w` out of `total`.
pub open spec fn portion(a: int, w: int, total: int) -> int {
    a * w / total
}

/// The floor shares of the first `k` weights, summed.
pub open spec fn shares(ws: Seq<int>, a: int, k: int) -> int
    decreases k,
{
    if k <= 0 {
        0
    } else {
        shares(ws, a, k - 1) + portion(a, ws[k - 1], wsum(ws))
    }
}

/// What entry `i` receives of an amount `a`: its floor share, or, for the last entry,
/// whatever the others did not receive.
pub open spec fn alloc_for(ws: Seq<int>, a: int, i: int) -> int {
    if i == ws.len() - 1 {
        a - shares(ws, a, i)
    } else {
        portion(a, ws[i], wsum(ws))
    }
}

/// What entries `0..k` receive of `a`, summed.
pub open spec fn alloc_sum(ws: Seq<int>, a: int, k: int) -> int
    decreases k,
{
    if k <= 0 {
        0
    } else {
        alloc_sum(ws, a, k - 1) + alloc_for(ws, a, k - 1)
    }
}

pub open spec fn positive_weights(ws: Seq<int>) -> bool {
    forall|i: int| 0 <= i < ws.len() ==> ws[i] > 0
}

/// A balance after crediting entry `i` with its part of every coin of `f`, in order.
pub open spec fn accrue(b: Seq<Coin>, f: Seq<Coin>, ws: Seq<int>, i: int) -> Seq<Coin>
    decreases f.len(),
{
    if f.len() == 0 {
        b
    } else {
        let prev = accrue(b, f.drop_last(), ws, i);
        credit(prev, f.last(), alloc_for(ws, f.last().amount as int, i))
    }
}

/// The total amount of denomination `d` in `f`, counting every occurrence.
pub open spec fn total_of(f: Seq<Coin>, d: Seq<char>) -> int
    decreases f.len(),
{
    if f.len() == 0 {
        0
    } else {
        total_of(f.drop_last(), d) + if f.last().denom@ == d { f.last().amount as int } else { 0 }
    }
}

/// What entry `i` receives of denomination `d` from all of `f`.
pub open spec fn received(f: Seq<Coin>, ws: Seq<int>, i: int, d: Seq<char>) -> int
    decreases f.len(),
{
    if f.len() == 0 {
        0
    } else {
        received(f.drop_last(), ws, i, d) + if f.last().denom@ == d {
            alloc_for(ws, f.last().amount as int, i)
        } else {
            0
        }
    }
}

/// No entry's balance can overflow while the deposit `f` is credited.
pub open spec fn fits(es: Seq<AllocationHolding>, f: Seq<Coin>) -> bool {
    forall|i: int, d: Seq<char>|
        0 <= i < es.len() ==> #[trigger] bal(es[i].balance@, d) + #[trigger] total_of(f, d)
            <= u128::MAX
}

pub proof fn lemma_wsum_positive(ws: Seq<int>)
    requires
        ws.len() > 0,
        positive_weights(ws),
    ensures
        wsum(ws) > 0,
    decreases ws.len(),
{
    assert(ws.last() > 0);
    if ws.len() > 1 {
        assert(positive_weights(ws.drop_last()));
        lemma_wsum_positive(ws.drop_last());
    } else {
        assert(ws.drop_last().len() == 0);
        assert(wsum(ws.drop_last()) == 0);
    }
    assert(wsum(ws) == wsum(ws.drop_last()) + ws.last());
}

pub proof fn lemma_wsum_step(ws: Seq<int>, k: int)
    requires
        0 <= k < ws.len(),
    ensures
        wsum(ws.take(k + 1)) == wsum(ws.take(k)) + ws[k],
{
    assert(ws.take(k + 1).drop_last() =~= ws.take(k));
}

proof fn lemma_wsum_nonneg(ws: Seq<int>, k: int)
    requires
        0 <= k <= ws.len(),
        positive_weights(ws),
    ensures
        0 <= wsum(ws.take(k)),
    decreases k,
{
    if k > 0 {
        lemma_wsum_nonneg(ws, k - 1);
        lemma_wsum_step(ws, k - 1);
    }
}

proof fn lemma_wsum_upper(ws: Seq<int>, k: int)
    requires
        0 <= k <= ws.len(),
        positive_weights(ws),
    ensures
        wsum(ws.take(k)) <= wsum(ws),
    decreases ws.len() - k,
{
    if k < ws.len() {
        lemma_wsum_upper(ws, k + 1);
        lemma_wsum_step(ws, k);
    } else {
        assert(ws.take(k) =~= ws);
    }
}

proof fn lemma_wsum_take(ws: Seq<int>, k: int)
    requires
        0 <= k <= ws.len(),
        positive_weights(ws),
    ensures
        0 <= wsum(ws.take(k)) <= wsum(ws),
        k < ws.len() ==> wsum(ws.take(k + 1)) == wsum(ws.take(k)) + ws[k],
{
    lemma_wsum_nonneg(ws, k);
    lemma_wsum_upper(ws, k);
    if k < ws.len() {
        lemma_wsum_step(ws, k);
    }
}

/// The floor shares of a prefix never exceed the amount.
pub proof fn lemma_shares_bound(ws: Seq<int>, a: int, k: int)
    requires
        0 <= a,
        ws.len() > 0,
        positive_weights(ws),
        0 <= k <= ws.len(),
    ensures
        0 <= shares(ws, a, k),
        shares(ws, a, k) * wsum(ws) <= a * wsum(ws.take(k)),
        shares(ws, a, k) <= a,
    decreases k,
{
    let t = wsum(ws);
    lemma_wsum_positive(ws);
    lemma_wsum_take(ws, k);
    if k > 0 {
        lemma_shares_bound(ws, a, k - 1);
        lemma_wsum_take(ws, k - 1);
        let w = ws[k - 1];
        let p = portion(a, w, t);
        lemma_fundamental_div_mod(a * w, t);
        assert(0 <= (a * w) % t) by { vstd::arithmetic::div_mod::lemma_mod_bound(a * w, t); };
        assert(a * w >= 0) by (nonlinear_arith) requires a >= 0, w > 0;
        assert(p >= 0) by { vstd::arithmetic::div_mod::lemma_div_pos_is_pos(a * w, t); };
        assert(p * t <= a * w) by (nonlinear_arith)
            requires a * w == t * p + (a * w) % t, 0 <= (a * w) % t;
        let s0 = shares(ws, a, k - 1);
        let pw = wsum(ws.take(k - 1));
        assert((s0 + p) * t <= a * (pw + w)) by (nonlinear_arith)
            requires s0 * t <= a * pw, p * t <= a * w;
    }
    let s = shares(ws, a, k);
    let pk = wsum(ws.take(k));
    assert(s <= a) by (nonlinear_arith)
        requires s * t <= a * pk, pk <= t, t > 0, a >= 0;
}

pub proof fn lemma_alloc_bounds(ws: Seq<int>, a: int, i: int)
    requires
        0 <= a,
        ws.len() > 0,
        positive_weights(ws),
        0 <= i < ws.len(),
    ensures
        0 <= alloc_for(ws, a, i) <= a,
{
    let t = wsum(ws);
    lemma_wsum_positive(ws);
    lemma_wsum_take(ws, 0);
    if i == ws.len() - 1 {
        lemma_shares_bound(ws, a, i);
    } else {
        let w = ws[i];
        lemma_wsum_take(ws, i);
        lemma_wsum_take(ws, i + 1);
        lemma_wsum_take(ws, ws.len() as int);
        assert(a * w >= 0) by (nonlinear_arith) requires a >= 0, w > 0;
        assert(a * w <= a * t) by (nonlinear_arith) requires a >= 0, w <= t;
        vstd::arithmetic::div_mod::lemma_div_pos_is_pos(a * w, t);
        lemma_div_is_ordered(a * w, a * t, t);
        vstd::arithmetic::div_mod::lemma_div_by_multiple(a, t);
    }
}

/// What all entries receive of an amount adds up to the amount.
pub proof fn lemma_alloc_sum(ws: Seq<int>, a: int)
    requires
        ws.len() > 0,
    ensures
        alloc_sum(ws, a, ws.len() as int) == a,
{
    lemma_alloc_sum_prefix(ws, a, ws.len() - 1);
}

proof fn lemma_alloc_sum_prefix(ws: Seq<int>, a: int, k: int)
    requires
        0 <= k <= ws.len() - 1,
    ensures
        alloc_sum(ws, a, k) == shares(ws, a, k),
    decreases k,
{
    if k > 0 {
        lemma_alloc_sum_prefix(ws, a, k - 1);
    }
}

/// `floor(a * w / t)` computed without forming `a * w`.
fn portion_exec(a: u128, w: u8, t: u128) -> (r: u128)
    requires
        0 < w as int <= t,
        t <= 0xffff_ffff_ffff_ffff_ffff_ffff,
    ensures
        r as int == portion(a as int, w as int, t as int),
{
    let q = a / t;
    let rem = a % t;
    proof {
        lemma_fundamental_div_mod(a as int, t as int);
        vstd::arithmetic::div_mod::lemma_mod_bound(a as int, t as int);
        assert(q * t <= a) by (nonlinear_arith)
            requires a as int == t * q + rem, rem >= 0;
        assert(q * w <= a) by (nonlinear_arith)
            requires q * t <= a, 0 < w <= t, q >= 0;
        assert(rem * w < t * 256) by (nonlinear_arith)
            requires 0 <= rem < t, 0 < w < 256;
    }
    let hi = q * (w as u128);
    let lo_n = rem * (w as u128);
    let lo = lo_n / t;
    proof {
        let aw = (a as int) * (w as int);
        lemma_fundamental_div_mod(lo_n as int, t as int);
        vstd::arithmetic::div_mod::lemma_mod_bound(lo_n as int, t as int);
        assert(aw == (hi + lo) * t + lo_n % t) by (nonlinear_arith)
            requires
                a as int == t * q + rem,
                hi == q * w,
                lo_n == rem * w,
                lo_n as int == t * lo + lo_n % t,
                aw == a * w;
        lemma_fundamental_div_mod_converse_div(aw, t as int, hi + lo, (lo_n % t) as int);
        assert(hi + lo <= a) by {
            assert(aw <= (a as int) * (t as int)) by (nonlinear_arith)
                requires aw == a * w, 0 < w <= t;
            lemma_div_is_ordered(aw, (a as int) * (t as int), t as int);
            vstd::arithmetic::div_mod::lemma_div_by_multiple(a as int, t as int);
        };
    }
    hi + lo
}

pub proof fn lemma_total_prefix(f: Seq<Coin>, k: int, d: Seq<char>)
    requires
        0 <= k <= f.len(),
    ensures
        0 <= total_of(f.take(k), d) <= total_of(f, d),
    decreases f.len() - k,
{
    lemma_total_nonneg(f.take(k), d);
    if k < f.len() {
        lemma_total_prefix(f, k + 1, d);
        assert(f.take(k + 1).drop_last() =~= f.take(k));
    } else {
        assert(f.take(k) =~= f);
    }
}

proof fn lemma_total_nonneg(f: Seq<Coin>, d: Seq<char>)
    ensures
        0 <= total_of(f, d),
    decreases f.len(),
{
    if f.len() > 0 {
        lemma_total_nonneg(f.drop_last(), d);
    }
}

/// The balance after accrual is the old balance plus what was received, per denomination.
pub proof fn lemma_received(b: Seq<Coin>, g: Seq<Coin>, ws: Seq<int>, i: int, d: Seq<char>)
    requires
        ws.len() > 0,
        positive_weights(ws),
        0 <= i < ws.len(),
        forall|e: Seq<char>| #[trigger] bal(b, e) + total_of(g, e) <= u128::MAX,
    ensures
        bal(accrue(b, g, ws, i), d) == bal(b, d) + received(g, ws, i, d),
        0 <= received(g, ws, i, d) <= total_of(g, d),
    decreases g.len(),
{
    if g.len() > 0 {
        let g0 = g.drop_last();
        let c = g.last();
        assert forall|e: Seq<char>| #[trigger] bal(b, e) + total_of(g0, e) <= u128::MAX by {
            assert(bal(b, e) + total_of(g, e) <= u128::MAX);
            lemma_total_nonneg(g0, e);
        };
        lemma_received(b, g0, ws, i, d);
        lemma_received(b, g0, ws, i, c.denom@);
        lemma_alloc_bounds(ws, c.amount as int, i);
        assert(bal(b, c.denom@) + total_of(g, c.denom@) <= u128::MAX);
        lemma_credit_bal(
            accrue(b, g0, ws, i),
            c,
            alloc_for(ws, c.amount as int, i),
            d,
        );
    }
}

/// The sum of all weights; it cannot overflow, as each weight is below 256.
pub fn total_weight(es: &Vec<AllocationHolding>) -> (t: u128)
    ensures
        t == wsum(weights(es@)),
        t <= 0xffff_ffff_ffff_ffff_ffff_ffff,
{
    let ghost ws = weights(es@);
    let mut t: u128 = 0;
    let mut i: usize = 0;
    while i < es.len()
        invariant
            ws == weights(es@),
            i <= es@.len(),
            t == wsum(ws.take(i as int)),
            t <= 255 * i,
        decreases es@.len() - i,
    {
        proof {
            lemma_wsum_step(ws, i as int);
        }
        t = t + es[i].allocation as u128;
        i = i + 1;
    }
    assert(ws.take(i as int) =~= ws);
    t
}

/// What each entry receives of the amount `a`, in registry order.
pub fn split_amount(es: &Vec<AllocationHolding>, a: u128) -> (r: Vec<u128>)
    requires
        es@.len() > 0,
        positive_weights(weights(es@)),
    ensures
        r@.len() == es@.len(),
        forall|i: int| 0 <= i < es@.len() ==> r@[i] == alloc_for(weights(es@), a as int, i),
{
    let ghost ws = weights(es@);
    let t = total_weight(es);
    proof {
        lemma_wsum_positive(ws);
    }
    let n = es.len();
    let mut r: Vec<u128> = Vec::new();
    let mut dist: u128 = 0;
    let mut i: usize = 0;
    while i + 1 < n
        invariant
            ws == weights(es@),
            n == es@.len(),
            n > 0,
            positive_weights(ws),
            t == wsum(ws),
            t > 0,
            t <= 0xffff_ffff_ffff_ffff_ffff_ffff,
            i < n,
            r@.len() == i,
            dist == shares(ws, a as int, i as int),
            forall|j: int| 0 <= j < i ==> r@[j] == alloc_for(ws, a as int, j),
        decreases n - i,
    {
        proof {
            lemma_wsum_take(ws, 0);
            assert(ws[i as int] == es@[i as int].allocation);
            lemma_wsum_take(ws, i as int);
            lemma_wsum_upper(ws, i as int + 1);
            lemma_wsum_step(ws, i as int);
            lemma_shares_bound(ws, a as int, i as int + 1);
        }
        let p = portion_exec(a, es[i].allocation, t);
        r.push(p);
        dist = dist + p;
        i = i + 1;
    }
    proof {
        lemma_shares_bound(ws, a as int, i as int);
    }
    r.push(a - dist);
    r
}

/// Credits every entry with its part of every coin of `f`.
pub fn split_funds(entries: &mut Vec<AllocationHolding>, f: &Vec<Coin>)
    requires
        old(entries)@.len() > 0,
        positive_weights(weights(old(entries)@)),
        fits(old(entries)@, f@),
    ensures
        final(entries)@.len() == old(entries)@.len(),
        forall|i: int|
            0 <= i < old(entries)@.len() ==> same_terms(#[trigger] final(entries)@[i], old(entries)@[i])
                && final(entries)@[i].balance@ == accrue(
                old(entries)@[i].balance@,
                f@,
                weights(old(entries)@),
                i,
            ),
{
    let ghost orig = entries@;
    let ghost ws = weights(entries@);
    let n = entries.len();
    let mut k: usize = 0;
    while k < f.len()
        invariant
            orig == old(entries)@,
            ws == weights(orig),
            n == orig.len(),
            n > 0,
            positive_weights(ws),
            fits(orig, f@),
            entries@.len() == n,
            k <= f@.len(),
            forall|i: int|
                0 <= i < n ==> same_terms(#[trigger] entries@[i], orig[i])
                    && entries@[i].balance@ == accrue(orig[i].balance@, f@.take(k as int), ws, i),
        decreases f@.len() - k,
    {
        assert(weights(entries@) =~= ws);
        let parts = split_amount(entries, f[k].amount);
        let mut i: usize = 0;
        while i < n
            invariant
                orig == old(entries)@,
                ws == weights(orig),
                n == orig.len(),
                n > 0,
                positive_weights(ws),
                fits(orig, f@),
                entries@.len() == n,
                k < f@.len(),
                i <= n,
                parts@.len() == n,
                forall|j: int| 0 <= j < n ==> parts@[j] == alloc_for(ws, f@[k as int].amount as int, j),
                forall|j: int|
                    0 <= j < n ==> same_terms(#[trigger] entries@[j], orig[j])
                        && entries@[j].balance@ == accrue(
                        orig[j].balance@,
                        f@.take(if j < i { k + 1 } else { k as int }),
                        ws,
                        j,
                    ),
            decreases n - i,
        {
            let mut b = copy_coins(&entries[i].balance);
            proof {
                let ii = i as int;
                let c = f@[k as int];
                let g = f@.take(k as int);
                assert(f@.take(k + 1).drop_last() =~= g);
                assert forall|e: Seq<char>| #[trigger] bal(orig[ii].balance@, e) + total_of(g, e) <= u128::MAX by {
                    lemma_total_prefix(f@, k as int, e);
                    assert(bal(orig[ii].balance@, e) + total_of(f@, e) <= u128::MAX);
                };
                assert forall|e: Seq<char>| #[trigger] bal(orig[ii].balance@, e) + total_of(f@.take(k + 1), e) <= u128::MAX by {
                    lemma_total_prefix(f@, k + 1, e);
                    assert(bal(orig[ii].balance@, e) + total_of(f@, e) <= u128::MAX);
                };
                lemma_received(orig[ii].balance@, g, ws, ii, c.denom@);
                lemma_received(orig[ii].balance@, f@.take(k + 1), ws, ii, c.denom@);
                lemma_alloc_bounds(ws, c.amount as int, ii);
                assert(received(f@.take(k + 1), ws, ii, c.denom@) == received(g, ws, ii, c.denom@)
                    + alloc_for(ws, c.amount as int, ii));
            }
            credit_coins(&mut b, &f[k], parts[i]);
            let e = entries[i].with_balance(b);
            entries.set(i, e);
            proof {
                assert(f@.take(k + 1).drop_last() =~= f@.take(k as int));
            }
            i = i + 1;
        }
        k = k + 1;
    }
    assert(f@.take(k as int) =~= f@);
}

proof fn lemma_total_absent(f: Seq<Coin>, d: Seq<char>)
    requires
        forall|k: int| 0 <= k < f.len() ==> f[k].denom@ != d,
    ensures
        total_of(f, d) == 0,
    decreases f.len(),
{
    if f.len() > 0 {
        lemma_total_absent(f.drop_last(), d);
    }
}

/// The total amount of `d` in `f`, or `None` where it exceeds `u128::MAX`.
fn total_amount(f: &Vec<Coin>, d: &String) -> (r: Option<u128>)
    ensures
        r matches Some(t) ==> t == total_of(f@, d@),
        r is None ==> total_of(f@, d@) > u128::MAX,
{
    let mut t: u128 = 0;
    let mut k: usize = 0;
    while k < f.len()
        invariant
            k <= f@.len(),
            t == total_of(f@.take(k as int), d@),
        decreases f@.len() - k,
    {
        assert(f@.take(k + 1).drop_last() =~= f@.take(k as int));
        if f[k].denom == *d {
            match t.checked_add(f[k].amount) {
                Some(s) => {
                    t = s;
                },
                None => {
                    proof {
                        lemma_total_prefix(f@, k + 1, d@);
                    }
                    return None;
                },
            }
        }
        k = k + 1;
    }
    assert(f@.take(k as int) =~= f@);
    Some(t)
}

/// Whether crediting the deposit `f` keeps every balance within `u128`.
pub fn deposit_fits(es: &Vec<AllocationHolding>, f: &Vec<Coin>) -> (r: bool)
    ensures
        r == fits(es@, f@),
{
    let mut i: usize = 0;
    while i < es.len()
        invariant
            i <= es@.len(),
            forall|a: int, k: int|
                0 <= a < i && 0 <= k < f@.len() ==> bal(es@[a].balance@, f@[k].denom@) + total_of(
                    f@,
                    f@[k].denom@,
                ) <= u128::MAX,
        decreases es@.len() - i,
    {
        let mut k: usize = 0;
        while k < f.len()
            invariant
                i < es@.len(),
                k <= f@.len(),
                forall|a: int, k2: int|
                    0 <= a < i && 0 <= k2 < f@.len() ==> bal(es@[a].balance@, f@[k2].denom@) + total_of(
                        f@,
                        f@[k2].denom@,
                    ) <= u128::MAX,
                forall|k2: int|
                    0 <= k2 < k ==> bal(es@[i as int].balance@, f@[k2].denom@) + total_of(
                        f@,
                        f@[k2].denom@,
                    ) <= u128::MAX,
            decreases f@.len() - k,
        {
            let b = amount_of(&es[i].balance, &f[k].denom);
            let ok = match total_amount(f, &f[k].denom) {
                Some(t) => b.checked_add(t).is_some(),
                None => false,
            };
            if !ok {
                proof {
                    let d = f@[k as int].denom@;
                    assert(bal(es@[i as int].balance@, d) + total_of(f@, d) > u128::MAX);
                }
                return false;
            }
            k = k + 1;
        }
        i = i + 1;
    }
    proof {
        assert forall|a: int, d: Seq<char>|
            0 <= a < es@.len() implies #[trigger] bal(es@[a].balance@, d) + #[trigger] total_of(f@, d)
                <= u128::MAX by {
            if exists|k: int| 0 <= k < f@.len() && f@[k].denom@ == d {
                let k = choose|k: int| 0 <= k < f@.len() && f@[k].denom@ == d;
                assert(bal(es@[a].balance@, f@[k].denom@) + total_of(f@, f@[k].denom@) <= u128::MAX);
            } else {
                lemma_total_absent(f@, d);
                lemma_bal_bound(es@[a].balance@, d);
            }
        };
    }
    true
}

} // verus!
