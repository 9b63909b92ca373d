use vstd::prelude::*;
use crate::types::Coin;

verus! {

/// `i` is the first position of `s` that holds denomination `d`.
pub open spec fn is_first(s: Seq<Coin>, d: Seq<char>, i: int) -> bool {
    &&& 0 <= i < s.len()
    &&& s[i].denom@ == d
    &&& forall|j: int| 0 <= j < i ==> s[j].denom@ != d
}

pub open spec fn holds_denom(s: Seq<Coin>, d: Seq<char>) -> bool {
    exists|i: int| is_first(s, d, i)
}

pub open spec fn first_of(s: Seq<Coin>, d: Seq<char>) -> int {
    choose|i: int| is_first(s, d, i)
}

/// The amount of denomination `d` in a list of coins (its first occurrence counts).
pub open spec fn bal(s: Seq<Coin>, d: Seq<char>) -> int {
    if holds_denom(s, d) {
        s[first_of(s, d)].amount as int
    } else {
        0
    }
}

/// `s` with `x` more of the denomination of `c`: added to its first occurrence, or
/// appended as a new coin. Crediting nothing leaves `s` as it is.
pub open spec fn credit(s: Seq<Coin>, c: Coin, x: int) -> Seq<Coin> {
    if x == 0 {
        s
    } else if holds_denom(s, c.denom@) {
        let i = first_of(s, c.denom@);
        s.update(i, Coin { denom: s[i].denom, amount: (s[i].amount + x) as u128 })
    } else {
        s.push(Coin { denom: c.denom, amount: x as u128 })
    }
}

pub proof fn lemma_first_unique(s: Seq<Coin>, d: Seq<char>, i: int)
    requires
        is_first(s, d, i),
    ensures
        holds_denom(s, d),
        first_of(s, d) == i,
{
    let k = first_of(s, d);
    assert(is_first(s, d, k));
    if k < i {
        assert(s[k].denom@ != d);
    } else if i < k {
        assert(s[i].denom@ != d);
    }
}

pub proof fn lemma_bal_bound(s: Seq<Coin>, d: Seq<char>)
    ensures
        0 <= bal(s, d) <= u128::MAX,
{
    if holds_denom(s, d) {
        let i = first_of(s, d);
        assert(is_first(s, d, i));
    }
}

pub proof fn lemma_absent(s: Seq<Coin>, d: Seq<char>)
    requires
        forall|j: int| 0 <= j < s.len() ==> s[j].denom@ != d,
    ensures
        !holds_denom(s, d),
        bal(s, d) == 0,
{
}

/// Crediting changes the credited denomination by exactly `x` and no other.
pub proof fn lemma_credit_bal(s: Seq<Coin>, c: Coin, x: int, d: Seq<char>)
    requires
        0 <= x,
        bal(s, c.denom@) + x <= u128::MAX,
    ensures
        bal(credit(s, c, x), d) == if d == c.denom@ { bal(s, d) + x } else { bal(s, d) },
{
    let t = credit(s, c, x);
    if x == 0 {
    } else if holds_denom(s, c.denom@) {
        let i = first_of(s, c.denom@);
        assert(is_first(s, c.denom@, i));
        if holds_denom(s, d) {
            let k = first_of(s, d);
            assert(is_first(s, d, k));
            assert(is_first(t, d, k));
            lemma_first_unique(t, d, k);
        } else {
            assert(d != c.denom@);
            if holds_denom(t, d) {
                let k = first_of(t, d);
                assert(is_first(t, d, k));
                assert(k != i);
                assert forall|j: int| 0 <= j < k implies s[j].denom@ != d by {
                    assert(t[j].denom@ != d);
                    if j != i {
                        assert(t[j] == s[j]);
                    }
                };
                assert(is_first(s, d, k));
            }
        }
    } else {
        if holds_denom(s, d) {
            let k = first_of(s, d);
            assert(is_first(s, d, k));
            assert(is_first(t, d, k));
            lemma_first_unique(t, d, k);
        } else {
            if d == c.denom@ {
                assert forall|j: int| 0 <= j < s.len() implies s[j].denom@ != d by {
                    if s[j].denom@ == d {
                        lemma_has_first(s, d, j);
                    }
                };
                assert(is_first(t, d, s.len() as int));
                lemma_first_unique(t, d, s.len() as int);
            } else {
                if holds_denom(t, d) {
                    let k = first_of(t, d);
                    assert(is_first(t, d, k));
                    assert(k < s.len());
                    assert forall|j: int| 0 <= j < k implies s[j].denom@ != d by {
                        assert(t[j].denom@ != d);
                        assert(t[j] == s[j]);
                    };
                    assert(is_first(s, d, k));
                }
            }
        }
    }
}

/// Any occurrence of a denomination implies a first one.
pub proof fn lemma_has_first(s: Seq<Coin>, d: Seq<char>, j: int)
    requires
        0 <= j < s.len(),
        s[j].denom@ == d,
    ensures
        holds_denom(s, d),
    decreases j,
{
    if forall|k: int| 0 <= k < j ==> s[k].denom@ != d {
        assert(is_first(s, d, j));
    } else {
        let k = choose|k: int| 0 <= k < j && s[k].denom@ == d;
        lemma_has_first(s, d, k);
    }
}

/// Adds `x` of the denomination of `c` to `v`.
pub fn credit_coins(v: &mut Vec<Coin>, c: &Coin, x: u128)
    requires
        bal(old(v)@, c.denom@) + x <= u128::MAX,
    ensures
        final(v)@ == credit(old(v)@, *c, x as int),
{
    if x == 0 {
        return;
    }
    let n = v.len();
    let mut i: usize = 0;
    while i < n
        invariant
            n == v@.len(),
            v@ == old(v)@,
            x > 0,
            bal(old(v)@, c.denom@) + x <= u128::MAX,
            i <= n,
            forall|j: int| 0 <= j < i ==> v@[j].denom@ != c.denom@,
        decreases n - i,
    {
        if v[i].denom == c.denom {
            proof {
                assert(is_first(v@, c.denom@, i as int));
                lemma_first_unique(v@, c.denom@, i as int);
                assert(bal(v@, c.denom@) == v@[i as int].amount);
            }
            let amount = v[i].amount + x;
            let coin = Coin { denom: v[i].denom.clone(), amount };
            v.set(i, coin);
            return;
        }
        i = i + 1;
    }
    proof {
        lemma_absent(v@, c.denom@);
    }
    v.push(Coin { denom: c.denom.clone(), amount: x });
}

/// A copy of a list of coins.
pub fn copy_coins(v: &Vec<Coin>) -> (r: Vec<Coin>)
    ensures
        r@ == v@,
{
    let mut r: Vec<Coin> = Vec::new();
    let mut i: usize = 0;
    while i < v.len()
        invariant
            i <= v@.len(),
            r@ == v@.take(i as int),
        decreases v@.len() - i,
    {
        r.push(v[i].copy());
        i = i + 1;
        assert(r@ =~= v@.take(i as int));
    }
    assert(v@.take(v@.len() as int) =~= v@);
    r
}

} // verus!

verus! {

/// The amount of denomination `d` in `v`.
pub fn amount_of(v: &Vec<Coin>, d: &String) -> (r: u128)
    ensures
        r == bal(v@, d@),
{
    let mut i: usize = 0;
    while i < v.len()
        invariant
            i <= v@.len(),
            forall|j: int| 0 <= j < i ==> v@[j].denom@ != d@,
        decreases v@.len() - i,
    {
        if v[i].denom == *d {
            proof {
                assert(is_first(v@, d@, i as int));
                lemma_first_unique(v@, d@, i as int);
            }
            return v[i].amount;
        }
        i = i + 1;
    }
    proof {
        lemma_absent(v@, d@);
    }
    0
}

} // verus!
