use vstd::prelude::*;
use crate::types::{
    AllocationDetail, AllocationHolding, Coin, ContractError, InitHook, SendType, same_terms,
};
use crate::balance::copy_coins;
use crate::text::{blank, is_blank};
use crate::order::{compare_names, lemma_lt_asym, lemma_lt_trans, name_lt};
use core::cmp::Ordering;
use crate::state::{
    Config, State, find_name, holdings_wf, index_of, valid_terms,
};

verus! {

/// The recipient kind that a tag names.
pub open spec fn send_type_of(tag: Seq<char>) -> Option<SendType> {
    if tag == "Wallet"@ {
        Some(SendType::Wallet)
    } else if tag == "Contract"@ {
        Some(SendType::Contract)
    } else {
        None
    }
}

/// Reads a recipient-kind tag: `Wallet` or `Contract`.
pub fn parse_send_type(tag: &String) -> (r: Option<SendType>)
    ensures
        r == send_type_of(tag@),
{
    let wallet = "Wallet".to_owned();
    let contract = "Contract".to_owned();
    proof {
        reveal_strlit("Wallet");
        reveal_strlit("Contract");
    }
    if *tag == wallet {
        Some(SendType::Wallet)
    } else if *tag == contract {
        Some(SendType::Contract)
    } else {
        None
    }
}

/// The first rule that the terms break, checked in this order: the name, the
/// threshold's denomination, the recipient kind, the weight.
pub open spec fn terms_error(
    name: Seq<char>,
    send_after: Coin,
    send_type: String,
    allocation: u8,
) -> Option<ContractError> {
    if name.len() == 0 {
        Some(ContractError::InvalidName)
    } else if blank(send_after.denom@) {
        Some(ContractError::InvalidCoin { coin: send_after })
    } else if send_type_of(send_type@) is None {
        Some(ContractError::SendTypeInvalid { send_type })
    } else if allocation == 0 {
        Some(ContractError::AllocationZero)
    } else {
        None
    }
}

/// Checks the terms of an entry.
fn check_terms(name: &String, send_after: &Coin, send_type: &String, allocation: u8) -> (r: Result<
    SendType,
    ContractError,
>)
    ensures
        terms_error(name@, *send_after, *send_type, allocation) is None <==> r is Ok,
        r matches Ok(k) ==> send_type_of(send_type@) == Some(k),
        r matches Err(e) ==> terms_error(name@, *send_after, *send_type, allocation) == Some(e),
{
    if name.as_str().is_empty() {
        return Err(ContractError::InvalidName);
    }
    if is_blank(&send_after.denom) {
        return Err(ContractError::InvalidCoin { coin: send_after.copy() });
    }
    let kind = match parse_send_type(send_type) {
        Some(k) => k,
        None => {
            return Err(ContractError::SendTypeInvalid { send_type: send_type.clone() });
        },
    };
    if allocation == 0 {
        return Err(ContractError::AllocationZero);
    }
    Ok(kind)
}

/// The entry that a valid detail becomes: its terms and an empty balance.
pub open spec fn holding_from(h: AllocationHolding, d: AllocationDetail) -> bool {
    &&& h.name == d.name
    &&& h.contract == d.contract
    &&& h.allocation == d.allocation
    &&& h.send_after == d.send_after
    &&& send_type_of(d.send_type@) == Some(h.send_type)
    &&& h.balance@.len() == 0
}

pub open spec fn details_distinct(ds: Seq<AllocationDetail>) -> bool {
    forall|i: int, j: int| 0 <= i < j < ds.len() ==> ds[i].name@ != ds[j].name@
}

/// `i` is the first detail whose terms are rejected.
pub open spec fn first_bad(ds: Seq<AllocationDetail>, i: int) -> bool {
    &&& 0 <= i < ds.len()
    &&& terms_error(ds[i].name@, ds[i].send_after, ds[i].send_type, ds[i].allocation) is Some
    &&& forall|j: int|
        0 <= j < i ==> terms_error(ds[j].name@, ds[j].send_after, ds[j].send_type, ds[j].allocation) is None
}

pub open spec fn all_valid(ds: Seq<AllocationDetail>) -> bool {
    forall|j: int|
        0 <= j < ds.len() ==> terms_error(ds[j].name@, ds[j].send_after, ds[j].send_type, ds[j].allocation) is None
}

fn details_unique(ds: &Vec<AllocationDetail>) -> (r: bool)
    ensures
        r == details_distinct(ds@),
{
    let mut i: usize = 0;
    while i < ds.len()
        invariant
            i <= ds@.len(),
            forall|a: int, b: int| 0 <= a < b < ds@.len() && a < i ==> ds@[a].name@ != ds@[b].name@,
        decreases ds@.len() - i,
    {
        let mut j: usize = i + 1;
        while j < ds.len()
            invariant
                i < ds@.len(),
                i + 1 <= j <= ds@.len(),
                forall|a: int, b: int| 0 <= a < b < ds@.len() && a < i ==> ds@[a].name@ != ds@[b].name@,
                forall|b: int| i < b < j ==> ds@[i as int].name@ != ds@[b].name@,
            decreases ds@.len() - j,
        {
            if ds[i].name == ds[j].name {
                return false;
            }
            j = j + 1;
        }
        i = i + 1;
    }
    true
}

/// `p` is where an entry named `n` belongs: after every smaller name, before every larger one.
pub open spec fn is_slot(es: Seq<AllocationHolding>, n: Seq<char>, p: int) -> bool {
    &&& 0 <= p <= es.len()
    &&& forall|j: int| 0 <= j < p ==> name_lt(#[trigger] es[j].name@, n)
    &&& forall|j: int| p <= j < es.len() ==> name_lt(n, #[trigger] es[j].name@)
}

pub open spec fn slot(es: Seq<AllocationHolding>, n: Seq<char>) -> int {
    choose|p: int| is_slot(es, n, p)
}

proof fn lemma_slot_unique(es: Seq<AllocationHolding>, n: Seq<char>, p: int)
    requires
        is_slot(es, n, p),
    ensures
        slot(es, n) == p,
{
    let q = slot(es, n);
    assert(is_slot(es, n, q));
    if q < p {
        lemma_lt_asym(es[q].name@, n);
    } else if p < q {
        lemma_lt_asym(es[p].name@, n);
    }
}

/// Puts `h` in its place by name.
fn insert_sorted(es: &mut Vec<AllocationHolding>, h: AllocationHolding)
    requires
        holdings_wf(old(es)@),
        valid_terms(h),
        find_name(old(es)@, h.name@) is None,
    ensures
        is_slot(old(es)@, h.name@, slot(old(es)@, h.name@)),
        final(es)@ == old(es)@.insert(slot(old(es)@, h.name@), h),
        holdings_wf(final(es)@),
{
    let ghost o = es@;
    let ghost n = h.name@;
    let mut p: usize = 0;
    let mut stop = false;
    while !stop && p < es.len()
        invariant
            es@ == o,
            o == old(es)@,
            n == h.name@,
            holdings_wf(o),
            find_name(o, n) is None,
            p <= o.len(),
            stop ==> p < o.len() && name_lt(n, o[p as int].name@),
            forall|j: int| 0 <= j < p ==> name_lt(#[trigger] o[j].name@, n),
        decreases o.len() - p + if stop { 0int } else { 1int },
    {
        match compare_names(&es[p].name, &h.name) {
            Ordering::Less => {
                p = p + 1;
            },
            Ordering::Equal => {
                assert(0 <= p < o.len() && o[p as int].name@ == n);
                assert(false);
                p = p + 1;
            },
            Ordering::Greater => {
                stop = true;
            },
        }
    }
    proof {
        if p < o.len() {
            assert forall|j: int| p <= j < o.len() implies name_lt(n, #[trigger] o[j].name@) by {
                if j > p {
                    lemma_lt_trans(n, o[p as int].name@, o[j].name@);
                }
            };
        }
        assert(is_slot(o, n, p as int));
        lemma_slot_unique(o, n, p as int);
    }
    es.insert(p, h);
    proof {
        let t = es@;
        let pp = p as int;
        assert(t =~= o.insert(pp, h));
        assert forall|a: int, b: int| 0 <= a < b < t.len() implies name_lt(t[a].name@, t[b].name@) by {
            if b < pp {
                assert(name_lt(o[a].name@, o[b].name@));
            } else if b == pp {
            } else if a < pp {
                lemma_lt_trans(o[a].name@, n, o[b - 1].name@);
            } else if a == pp {
            } else {
                assert(name_lt(o[a - 1].name@, o[b - 1].name@));
            }
        };
        assert forall|a: int, b: int| 0 <= a < b < t.len() implies t[a].name@ != t[b].name@ by {
            assert(name_lt(t[a].name@, t[b].name@));
            lemma_lt_asym(t[a].name@, t[b].name@);
        };
        assert forall|a: int| 0 <= a < t.len() implies valid_terms(#[trigger] t[a]) by {
            if a < pp {
                assert(valid_terms(o[a]));
            } else if a > pp {
                assert(valid_terms(o[a - 1]));
            }
        };
    }
}

/// Detail `j` has become one of the entries `hs`.
pub open spec fn covered(hs: Seq<AllocationHolding>, ds: Seq<AllocationDetail>, j: int) -> bool {
    exists|k: int| 0 <= k < hs.len() && holding_from(hs[k], ds[j])
}

/// Entry `k` is named after one of the first `n` details.
pub open spec fn named_from(hs: Seq<AllocationHolding>, ds: Seq<AllocationDetail>, k: int, n: int) -> bool {
    exists|j: int| 0 <= j < n && hs[k].name@ == ds[j].name@
}

/// Entries named after the first `ii` details do not hold the name of detail `ii`.
proof fn lemma_fresh_name(o: Seq<AllocationHolding>, ds: Seq<AllocationDetail>, ii: int)
    requires
        details_distinct(ds),
        0 <= ii < ds.len(),
        forall|k: int| 0 <= k < o.len() ==> #[trigger] named_from(o, ds, k, ii),
    ensures
        find_name(o, ds[ii].name@) is None,
{
    if exists|k: int| 0 <= k < o.len() && o[k].name@ == ds[ii].name@ {
        let k = choose|k: int| 0 <= k < o.len() && o[k].name@ == ds[ii].name@;
        assert(named_from(o, ds, k, ii));
        let j = choose|j: int| 0 <= j < ii && o[k].name@ == ds[j].name@;
        assert(ds[j].name@ != ds[ii].name@);
    }
}

/// After detail `ii` is inserted, the entries are exactly those of the first `ii + 1` details.
#[verifier::rlimit(40)]
proof fn lemma_cover_after_insert(
    o: Seq<AllocationHolding>,
    t: Seq<AllocationHolding>,
    p: int,
    h: AllocationHolding,
    ds: Seq<AllocationDetail>,
    ii: int,
)
    requires
        0 <= ii < ds.len(),
        0 <= p <= o.len(),
        t == o.insert(p, h),
        holding_from(h, ds[ii]),
        forall|j: int| 0 <= j < ii ==> #[trigger] covered(o, ds, j),
        forall|k: int| 0 <= k < o.len() ==> #[trigger] named_from(o, ds, k, ii),
    ensures
        forall|j: int| 0 <= j < ii + 1 ==> #[trigger] covered(t, ds, j),
        forall|k: int| 0 <= k < t.len() ==> #[trigger] named_from(t, ds, k, ii + 1),
{
    assert(t.len() == o.len() + 1);
    assert(t[p] == h);
    assert(forall|k: int| 0 <= k < p ==> #[trigger] t[k] == o[k]);
    assert(forall|k: int| p < k < t.len() ==> #[trigger] t[k] == o[k - 1]);
    assert forall|j: int| 0 <= j < ii + 1 implies #[trigger] covered(t, ds, j) by {
        if j < ii {
            assert(covered(o, ds, j));
            let k = choose|k: int| 0 <= k < o.len() && holding_from(o[k], ds[j]);
            if k < p {
                assert(t[k] == o[k]);
                assert(holding_from(t[k], ds[j]));
            } else {
                assert(t[k + 1] == o[k]);
                assert(holding_from(t[k + 1], ds[j]));
            }
        } else {
            assert(holding_from(t[p], ds[j]));
        }
    };
    assert forall|k: int| 0 <= k < t.len() implies #[trigger] named_from(t, ds, k, ii + 1) by {
        if k < p {
            assert(t[k] == o[k]);
            assert(named_from(o, ds, k, ii));
            let j = choose|j: int| 0 <= j < ii && o[k].name@ == ds[j].name@;
            assert(t[k].name@ == ds[j].name@);
        } else if k == p {
            assert(t[k].name@ == ds[ii].name@);
        } else {
            assert(t[k] == o[k - 1]);
            assert(named_from(o, ds, k - 1, ii));
            let j = choose|j: int| 0 <= j < ii && o[k - 1].name@ == ds[j].name@;
            assert(t[k].name@ == ds[j].name@);
        }
    };
}

/// Sets the splitter up: `this` is its own address and `gov` its controller, both
/// already validated by the host; `allocation` lists the entries in registry order.
/// Fails on an empty list, on duplicate names, and on the first entry whose terms
/// are rejected; nothing is set up then. On success the hook, if any, is handed back
/// to be sent.
#[verifier::rlimit(60)]
pub fn instantiate(
    this: String,
    gov: String,
    allocation: Vec<AllocationDetail>,
    init_hook: Option<InitHook>,
) -> (r: Result<(State, Option<InitHook>), ContractError>)
    ensures
        allocation@.len() == 0 ==> r == Err::<(State, Option<InitHook>), ContractError>(
            ContractError::NoFeesError,
        ),
        allocation@.len() > 0 && !details_distinct(allocation@) ==> r == Err::<
            (State, Option<InitHook>),
            ContractError,
        >(ContractError::FundAllocationNotUnique),
        forall|i: int|
            allocation@.len() > 0 && details_distinct(allocation@) && first_bad(allocation@, i)
                ==> r == Err::<(State, Option<InitHook>), ContractError>(
                terms_error(
                    allocation@[i].name@,
                    allocation@[i].send_after,
                    allocation@[i].send_type,
                    allocation@[i].allocation,
                )->Some_0,
            ),
        r is Ok <==> allocation@.len() > 0 && details_distinct(allocation@) && all_valid(allocation@),
        r matches Ok((s, hook)) ==> {
            &&& hook == init_hook
            &&& s.wf()
            &&& s.config.this == this
            &&& s.config.gov_contract == gov
            &&& s.config.new_gov_contract is None
            &&& s.config.change_gov_contract_by_height is None
            &&& s.flush_whitelist@.len() == 0
            &&& s.holdings@.len() == allocation@.len()
            &&& forall|i: int| 0 <= i < allocation@.len() ==> #[trigger] covered(s.holdings@, allocation@, i)
        },
{
    if allocation.len() == 0 {
        return Err(ContractError::NoFeesError);
    }
    if !details_unique(&allocation) {
        return Err(ContractError::FundAllocationNotUnique);
    }
    let mut holdings: Vec<AllocationHolding> = Vec::new();
    let mut i: usize = 0;
    while i < allocation.len()
        invariant
            i <= allocation@.len(),
            details_distinct(allocation@),
            holdings@.len() == i,
            holdings_wf(holdings@),
            forall|j: int| 0 <= j < i ==> #[trigger] covered(holdings@, allocation@, j),
            forall|k: int| 0 <= k < holdings@.len() ==> #[trigger] named_from(holdings@, allocation@, k, i as int),
            forall|j: int|
                0 <= j < i ==> terms_error(
                    allocation@[j].name@,
                    allocation@[j].send_after, allocation@[j].send_type, allocation@[j].allocation,
                ) is None,
        decreases allocation@.len() - i,
    {
        let d = &allocation[i];
        match check_terms(&d.name, &d.send_after, &d.send_type, d.allocation) {
            Ok(kind) => {
                let h = AllocationHolding {
                    name: d.name.clone(),
                    contract: d.contract.clone(),
                    allocation: d.allocation,
                    send_after: d.send_after.copy(),
                    send_type: kind,
                    balance: Vec::new(),
                };
                let ghost o = holdings@;
                proof {
                    lemma_fresh_name(o, allocation@, i as int);
                }
                let ghost hh = h;
                assert(holding_from(hh, allocation@[i as int]));
                insert_sorted(&mut holdings, h);
                proof {
                    assert(holdings@ == o.insert(slot(o, hh.name@), hh));
                    assert(0 <= slot(o, hh.name@) <= o.len());
                    lemma_cover_after_insert(
                        o,
                        holdings@,
                        slot(o, hh.name@),
                        hh,
                        allocation@,
                        i as int,
                    );
                }
            },
            Err(e) => {
                proof {
                    assert forall|k: int| first_bad(allocation@, k) implies k == i as int by {
                        if k > i as int {
                            assert(terms_error(
                                allocation@[i as int].name@,
                                allocation@[i as int].send_after, allocation@[i as int].send_type, allocation@[i as int].allocation,
                            ) is None);
                        }
                    };
                }
                return Err(e);
            },
        }
        i = i + 1;
    }
    let state = State {
        config: Config {
            this,
            gov_contract: gov,
            new_gov_contract: None,
            change_gov_contract_by_height: None,
        },
        holdings,
        flush_whitelist: Vec::new(),
    };
    Ok((state, init_hook))
}

proof fn lemma_wf_update(es: Seq<AllocationHolding>, i: int, h: AllocationHolding)
    requires
        holdings_wf(es),
        0 <= i < es.len(),
        h.name == es[i].name,
        valid_terms(h),
    ensures
        holdings_wf(es.update(i, h)),
{
    let t = es.update(i, h);
    assert forall|a: int, b: int| 0 <= a < b < t.len() implies t[a].name@ != t[b].name@ by {
        assert(es[a].name@ != es[b].name@);
    };
    assert forall|a: int| 0 <= a < t.len() implies valid_terms(#[trigger] t[a]) by {
        if a != i {
            assert(valid_terms(es[a]));
        }
    };
}

/// What `add_allocation_detail` does on `s`.
pub open spec fn add_post(
    s: State,
    caller: Seq<char>,
    detail: AllocationDetail,
    t: State,
    r: Result<(), ContractError>,
) -> bool {
    &&& (caller != s.config.gov_contract@ ==> r == Err::<(), ContractError>(
        ContractError::Unauthorized,
    ))
    &&& (caller == s.config.gov_contract@ && find_name(s.holdings@, detail.name@) is Some
            ==> r == Err::<(), ContractError>(ContractError::FundAllocationNotUnique))
    &&& (caller == s.config.gov_contract@ && find_name(s.holdings@, detail.name@) is None
        && terms_error(detail.name@, detail.send_after, detail.send_type, detail.allocation) is Some ==> r == Err::<
        (),
        ContractError,
    >(terms_error(detail.name@, detail.send_after, detail.send_type, detail.allocation)->Some_0))
    &&& (r is Ok <==> caller == s.config.gov_contract@ && find_name(s.holdings@, detail.name@) is None
        && terms_error(detail.name@, detail.send_after, detail.send_type, detail.allocation) is None)
    &&& (r is Err ==> t == s)
    &&& (r is Ok ==> {
            let p = slot(s.holdings@, detail.name@);
            &&& t.config == s.config
            &&& t.flush_whitelist == s.flush_whitelist
            &&& t.holdings@.len() == s.holdings@.len() + 1
            &&& t.holdings@ == s.holdings@.insert(p, t.holdings@[p])
            &&& holding_from(t.holdings@[p], detail)
        })
}

/// Registers a new entry. Only the controller may; the name must be new and the
/// terms valid.
pub fn add_allocation_detail(state: &mut State, caller: &String, detail: AllocationDetail) -> (r:
    Result<(), ContractError>)
    requires
        old(state).wf(),
    ensures
        final(state).wf(),
        add_post(*old(state), caller@, detail, *final(state), r),
{
    if *caller != state.config.gov_contract {
        return Err(ContractError::Unauthorized);
    }
    if index_of(&state.holdings, &detail.name).is_some() {
        return Err(ContractError::FundAllocationNotUnique);
    }
    let kind = match check_terms(&detail.name, &detail.send_after, &detail.send_type, detail.allocation) {
        Ok(k) => k,
        Err(e) => {
            return Err(e);
        },
    };
    insert_sorted(
        &mut state.holdings,
        AllocationHolding {
            name: detail.name,
            contract: detail.contract,
            allocation: detail.allocation,
            send_after: detail.send_after,
            send_type: kind,
            balance: Vec::new(),
        },
    );
    Ok(())
}

/// What `remove_allocation_detail` does on `s`.
pub open spec fn remove_post(
    s: State,
    caller: Seq<char>,
    name: String,
    t: State,
    r: Result<(), ContractError>,
) -> bool {
    &&& (caller != s.config.gov_contract@ ==> r == Err::<(), ContractError>(
        ContractError::Unauthorized,
    ))
    &&& (caller == s.config.gov_contract@ && find_name(s.holdings@, name@) is None
            ==> r == Err::<(), ContractError>(ContractError::AllocationNotFound { name }))
    &&& (r is Ok <==> caller == s.config.gov_contract@ && find_name(s.holdings@, name@) is Some)
    &&& (r is Err ==> t == s)
    &&& (r is Ok ==> {
            &&& t.config == s.config
            &&& t.flush_whitelist == s.flush_whitelist
            &&& t.holdings@ == s.holdings@.remove(find_name(s.holdings@, name@)->Some_0)
        })
}

/// Deletes the entry named `name`, with whatever it had accrued. Only the controller may.
pub fn remove_allocation_detail(state: &mut State, caller: &String, name: String) -> (r: Result<
    (),
    ContractError,
>)
    requires
        old(state).wf(),
    ensures
        final(state).wf(),
        remove_post(*old(state), caller@, name, *final(state), r),
{
    if *caller != state.config.gov_contract {
        return Err(ContractError::Unauthorized);
    }
    match index_of(&state.holdings, &name) {
        None => Err(ContractError::AllocationNotFound { name }),
        Some(i) => {
            let ghost o = state.holdings@;
            state.holdings.remove(i);
            proof {
                let t = state.holdings@;
                assert(t =~= o.remove(i as int));
                assert forall|a: int, b: int| 0 <= a < b < t.len() implies t[a].name@ != t[b].name@ by {
                    if a < i {
                        if b >= i {
                            assert(t[b] == o[b + 1]);
                        }
                    } else {
                        assert(t[a] == o[a + 1]);
                        assert(t[b] == o[b + 1]);
                    }
                };
                assert forall|a: int| 0 <= a < t.len() implies valid_terms(#[trigger] t[a]) by {
                    if a < i {
                        assert(valid_terms(o[a]));
                    } else {
                        assert(valid_terms(o[a + 1]));
                    }
                };
            }
            Ok(())
        },
    }
}

/// What `modify_allocation_detail` does on `s`.
pub open spec fn modify_post(
    s: State,
    caller: Seq<char>,
    name: String,
    contract: String,
    allocation: u8,
    send_after: Coin,
    send_type: String,
    t: State,
    r: Result<(), ContractError>,
) -> bool {
    &&& (caller != s.config.gov_contract@ ==> r == Err::<(), ContractError>(
        ContractError::Unauthorized,
    ))
    &&& (caller == s.config.gov_contract@ && find_name(s.holdings@, name@) is None
            ==> r == Err::<(), ContractError>(ContractError::AllocationNotFound { name }))
    &&& (caller == s.config.gov_contract@ && find_name(s.holdings@, name@) is Some
            && terms_error(name@, send_after, send_type, allocation) is Some ==> r == Err::<
        (),
        ContractError,
    >(terms_error(name@, send_after, send_type, allocation)->Some_0))
    &&& (r is Ok <==> caller == s.config.gov_contract@ && find_name(s.holdings@, name@) is Some
        && terms_error(name@, send_after, send_type, allocation) is None)
    &&& (r is Err ==> t == s)
    &&& (r is Ok ==> {
            let i = find_name(s.holdings@, name@)->Some_0;
            let h = t.holdings@[i];
            &&& t.config == s.config
            &&& t.flush_whitelist == s.flush_whitelist
            &&& t.holdings@ == s.holdings@.update(i, h)
            &&& h.name == s.holdings@[i].name
            &&& h.contract == contract
            &&& h.allocation == allocation
            &&& h.send_after == send_after
            &&& send_type_of(send_type@) == Some(h.send_type)
            &&& h.balance@ == s.holdings@[i].balance@
        })
}

/// Replaces the terms of the entry named `name`; its balance stays. Only the
/// controller may, and the new terms must be valid.
pub fn modify_allocation_detail(
    state: &mut State,
    caller: &String,
    name: String,
    contract: String,
    allocation: u8,
    send_after: Coin,
    send_type: String,
) -> (r: Result<(), ContractError>)
    requires
        old(state).wf(),
    ensures
        final(state).wf(),
        modify_post(*old(state), caller@, name, contract, allocation, send_after, send_type, *final(state), r),
{
    if *caller != state.config.gov_contract {
        return Err(ContractError::Unauthorized);
    }
    let i = match index_of(&state.holdings, &name) {
        None => {
            return Err(ContractError::AllocationNotFound { name });
        },
        Some(i) => i,
    };
    let kind = match check_terms(&name, &send_after, &send_type, allocation) {
        Ok(k) => k,
        Err(e) => {
            return Err(e);
        },
    };
    let balance = copy_coins(&state.holdings[i].balance);
    let h = AllocationHolding {
        name: state.holdings[i].name.clone(),
        contract,
        allocation,
        send_after,
        send_type: kind,
        balance,
    };
    let ghost o = state.holdings@;
    state.holdings.set(i, h);
    proof {
        lemma_wf_update(o, i as int, state.holdings@[i as int]);
    }
    Ok(())
}

/// A copy of an entry.
pub fn copy_holding(h: &AllocationHolding) -> (r: AllocationHolding)
    ensures
        same_terms(r, *h),
        r.balance@ == h.balance@,
{
    h.with_balance(copy_coins(&h.balance))
}

/// The entry named `name`, if there is one.
pub fn query_allocation(state: &State, name: &String) -> (r: Option<AllocationHolding>)
    requires
        state.wf(),
    ensures
        r is Some <==> find_name(state.holdings@, name@) is Some,
        r matches Some(h) ==> {
            let e = state.holdings@[find_name(state.holdings@, name@)->Some_0];
            same_terms(h, e) && h.balance@ == e.balance@
        },
{
    match index_of(&state.holdings, name) {
        Some(i) => Some(copy_holding(&state.holdings[i])),
        None => None,
    }
}

pub const DEFAULT_LIMIT: u32 = 10;

pub const MAX_LIMIT: u32 = 30;

/// `p` splits the entries at `c`: names up to `c` stand before it, names after `c` from it on.
pub open spec fn splits_at(es: Seq<AllocationHolding>, c: Seq<char>, p: int) -> bool {
    &&& 0 <= p <= es.len()
    &&& forall|j: int| 0 <= j < p ==> !name_lt(c, #[trigger] es[j].name@)
    &&& forall|j: int| p <= j < es.len() ==> name_lt(c, #[trigger] es[j].name@)
}

/// Where a page starts: at the front, or at the first name after the cursor, whether or
/// not the cursor names an entry.
pub open spec fn page_start(es: Seq<AllocationHolding>, start_after: Option<String>) -> int {
    match start_after {
        None => 0,
        Some(c) => choose|p: int| splits_at(es, c@, p),
    }
}

/// The first position holding a name after `c`.
fn first_after(es: &Vec<AllocationHolding>, c: &String) -> (p: usize)
    requires
        holdings_wf(es@),
    ensures
        splits_at(es@, c@, p as int),
        page_start(es@, Some(*c)) == p,
{
    let mut p: usize = 0;
    let mut stop = false;
    while !stop && p < es.len()
        invariant
            holdings_wf(es@),
            p <= es@.len(),
            stop ==> p < es@.len() && name_lt(c@, es@[p as int].name@),
            forall|j: int| 0 <= j < p ==> !name_lt(c@, #[trigger] es@[j].name@),
        decreases es@.len() - p + if stop { 0int } else { 1int },
    {
        match compare_names(c, &es[p].name) {
            Ordering::Less => {
                stop = true;
            },
            _ => {
                p = p + 1;
            },
        }
    }
    proof {
        if p < es@.len() {
            assert forall|j: int| p <= j < es@.len() implies name_lt(c@, #[trigger] es@[j].name@) by {
                if j > p {
                    lemma_lt_trans(c@, es@[p as int].name@, es@[j].name@);
                }
            };
        }
        assert(splits_at(es@, c@, p as int));
        let q = choose|q: int| splits_at(es@, c@, q);
        assert(splits_at(es@, c@, q));
        if q < p {
            assert(name_lt(c@, es@[q].name@));
        } else if p < q {
            assert(!name_lt(c@, es@[p as int].name@));
        }
    }
    p
}

/// The page size: the limit asked for, capped, or the default.
pub open spec fn page_size(limit: Option<u32>) -> int {
    match limit {
        None => DEFAULT_LIMIT as int,
        Some(l) => if l > MAX_LIMIT { MAX_LIMIT as int } else { l as int },
    }
}

/// One page of entries in registry order.
pub fn query_allocations(state: &State, start_after: Option<String>, limit: Option<u32>) -> (r: Vec<
    AllocationHolding,
>)
    requires
        state.wf(),
    ensures
        r@.len() == if state.holdings@.len() - page_start(state.holdings@, start_after) < page_size(
            limit,
        ) {
            state.holdings@.len() - page_start(state.holdings@, start_after)
        } else {
            page_size(limit)
        },
        start_after matches Some(c) ==> splits_at(
            state.holdings@,
            c@,
            page_start(state.holdings@, start_after),
        ),
        forall|k: int|
            0 <= k < r@.len() ==> same_terms(
                #[trigger] r@[k],
                state.holdings@[page_start(state.holdings@, start_after) + k],
            ) && r@[k].balance@ == state.holdings@[page_start(state.holdings@, start_after)
                + k].balance@,
{
    let n = state.holdings.len();
    let start: usize = match &start_after {
        None => 0,
        Some(c) => first_after(&state.holdings, c),
    };
    let size: usize = match limit {
        None => DEFAULT_LIMIT as usize,
        Some(l) => if l > MAX_LIMIT { MAX_LIMIT as usize } else { l as usize },
    };
    let mut r: Vec<AllocationHolding> = Vec::new();
    let mut i: usize = start;
    while i < n && r.len() < size
        invariant
            n == state.holdings@.len(),
            start <= i <= n,
            start == page_start(state.holdings@, start_after),
            size == page_size(limit),
            r@.len() == i - start,
            r@.len() <= size,
            forall|k: int|
                0 <= k < r@.len() ==> same_terms(#[trigger] r@[k], state.holdings@[start + k])
                    && r@[k].balance@ == state.holdings@[start + k].balance@,
        decreases n - i,
    {
        r.push(copy_holding(&state.holdings[i]));
        i = i + 1;
    }
    r
}

} // verus!
