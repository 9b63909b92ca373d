use vstd::prelude::*;
use crate::types::ContractError;
use crate::state::{State, has_member, position_of};

verus! {

/// What `update_gov_contract` does on `s`.
pub open spec fn update_post(
    s: State,
    caller: Seq<char>,
    gov_contract: String,
    blocks: u64,
    now: u64,
    t: State,
    r: Result<(), ContractError>,
) -> bool {
    &&& (r is Ok <==> caller == s.config.gov_contract@)
    &&& (r is Err ==> r == Err::<(), ContractError>(ContractError::Unauthorized) && t == s)
    &&& (r is Ok ==> {
            &&& t.config.new_gov_contract == Some(gov_contract)
            &&& t.config.change_gov_contract_by_height == Some((now + blocks) as u64)
            &&& t.config.gov_contract == s.config.gov_contract
            &&& t.config.this == s.config.this
            &&& t.holdings == s.holdings
            &&& t.flush_whitelist == s.flush_whitelist
        })
}

/// Nominates `gov_contract` as the next controller, who may accept from height
/// `now + blocks` on. Only the current controller may do so; a new nomination
/// replaces a pending one.
pub fn update_gov_contract(
    state: &mut State,
    caller: &String,
    gov_contract: String,
    blocks: u64,
    now: u64,
) -> (r: Result<(), ContractError>)
    requires
        old(state).wf(),
        now + blocks <= u64::MAX,
    ensures
        final(state).wf(),
        update_post(*old(state), caller@, gov_contract, blocks, now, *final(state), r),
{
    if *caller != state.config.gov_contract {
        return Err(ContractError::Unauthorized);
    }
    state.config.new_gov_contract = Some(gov_contract);
    state.config.change_gov_contract_by_height = Some(now + blocks);
    Ok(())
}

/// What `accept_gov_contract` does on `s`.
pub open spec fn accept_post(
    s: State,
    caller: Seq<char>,
    now: u64,
    t: State,
    r: Result<(), ContractError>,
) -> bool {
    &&& (s.config.new_gov_contract matches Some(p) && caller == p@ ==> {
            let h = s.config.change_gov_contract_by_height->Some_0;
            &&& now < h ==> r == Err::<(), ContractError>(ContractError::GovChangeNotYetActive)
            &&& now >= h ==> r is Ok
        })
    &&& (!(s.config.new_gov_contract matches Some(p) && caller == p@) ==> r == Err::<
        (),
        ContractError,
    >(ContractError::Unauthorized))
    &&& (r is Err ==> t == s)
    &&& (r is Ok ==> {
            &&& t.config.gov_contract == s.config.new_gov_contract->Some_0
            &&& t.config.new_gov_contract is None
            &&& t.config.change_gov_contract_by_height is None
            &&& t.config.this == s.config.this
            &&& t.holdings == s.holdings
            &&& t.flush_whitelist == s.flush_whitelist
        })
}

/// The nominated controller takes over, at or after the activation height `now`.
pub fn accept_gov_contract(state: &mut State, caller: &String, now: u64) -> (r: Result<
    (),
    ContractError,
>)
    requires
        old(state).wf(),
    ensures
        final(state).wf(),
        accept_post(*old(state), caller@, now, *final(state), r),
{
    let height = match (&state.config.new_gov_contract, state.config.change_gov_contract_by_height) {
        (Some(p), Some(h)) => {
            if *p != *caller {
                return Err(ContractError::Unauthorized);
            }
            h
        },
        _ => {
            return Err(ContractError::Unauthorized);
        },
    };
    if now < height {
        return Err(ContractError::GovChangeNotYetActive);
    }
    let next = state.config.new_gov_contract.take();
    match next {
        Some(p) => {
            state.config.gov_contract = p;
        },
        None => {},
    }
    state.config.change_gov_contract_by_height = None;
    Ok(())
}

/// What `add_to_flush_whitelist` does on `s`.
pub open spec fn whitelist_add_post(
    s: State,
    caller: Seq<char>,
    address: String,
    t: State,
    r: Result<(), ContractError>,
) -> bool {
    &&& (r is Ok <==> caller == s.config.gov_contract@)
    &&& (r is Err ==> r == Err::<(), ContractError>(ContractError::Unauthorized) && t == s)
    &&& (r is Ok ==> {
            &&& t.config == s.config
            &&& t.holdings == s.holdings
            &&& has_member(s.flush_whitelist@, address@) ==> t.flush_whitelist == s.flush_whitelist
            &&& !has_member(s.flush_whitelist@, address@) ==> t.flush_whitelist@ == s.flush_whitelist@.push(
                address,
            )
        })
}

/// Allows `address` to trigger flushes. Adding a member again changes nothing.
pub fn add_to_flush_whitelist(state: &mut State, caller: &String, address: String) -> (r: Result<
    (),
    ContractError,
>)
    requires
        old(state).wf(),
    ensures
        final(state).wf(),
        whitelist_add_post(*old(state), caller@, address, *final(state), r),
{
    if *caller != state.config.gov_contract {
        return Err(ContractError::Unauthorized);
    }
    match position_of(&state.flush_whitelist, &address) {
        Some(_) => {},
        None => {
            state.flush_whitelist.push(address);
            proof {
                let l = state.flush_whitelist@;
                assert forall|i: int, j: int| 0 <= i < j < l.len() implies l[i]@ != l[j]@ by {
                    if j == l.len() - 1 {
                        assert(l[i] == old(state).flush_whitelist@[i]);
                    } else {
                        assert(l[i] == old(state).flush_whitelist@[i]);
                        assert(l[j] == old(state).flush_whitelist@[j]);
                    }
                };
            }
        },
    }
    Ok(())
}

/// What `remove_from_flush_whitelist` does on `s`.
pub open spec fn whitelist_remove_post(
    s: State,
    caller: Seq<char>,
    address: Seq<char>,
    t: State,
    r: Result<(), ContractError>,
) -> bool {
    &&& (r is Ok <==> caller == s.config.gov_contract@)
    &&& (r is Err ==> r == Err::<(), ContractError>(ContractError::Unauthorized) && t == s)
    &&& (r is Ok ==> {
            &&& t.config == s.config
            &&& t.holdings == s.holdings
            &&& !has_member(s.flush_whitelist@, address) ==> t.flush_whitelist == s.flush_whitelist
            &&& forall|a: Seq<char>|
                #[trigger] has_member(t.flush_whitelist@, a) <==> has_member(s.flush_whitelist@, a)
                    && a != address
        })
}

/// Withdraws `address`'s right to trigger flushes. Removing a non-member changes nothing.
pub fn remove_from_flush_whitelist(state: &mut State, caller: &String, address: &String) -> (r:
    Result<(), ContractError>)
    requires
        old(state).wf(),
    ensures
        final(state).wf(),
        whitelist_remove_post(*old(state), caller@, address@, *final(state), r),
{
    if *caller != state.config.gov_contract {
        return Err(ContractError::Unauthorized);
    }
    match position_of(&state.flush_whitelist, address) {
        Some(i) => {
            let ghost o = state.flush_whitelist@;
            state.flush_whitelist.remove(i);
            proof {
                let l = state.flush_whitelist@;
                assert(l =~= o.remove(i as int));
                assert forall|a: int, b: int| 0 <= a < b < l.len() implies l[a]@ != l[b]@ by {
                    if a < i {
                        if b < i {
                        } else {
                            assert(l[b] == o[b + 1]);
                        }
                    } else {
                        assert(l[a] == o[a + 1]);
                        assert(l[b] == o[b + 1]);
                    }
                };
                assert forall|x: Seq<char>| #[trigger] has_member(l, x) <==> has_member(o, x) && x != address@ by {
                    if has_member(l, x) {
                        let k = choose|k: int| 0 <= k < l.len() && l[k]@ == x;
                        if k < i {
                            assert(o[k]@ == x);
                            assert(o[k]@ != o[i as int]@);
                        } else {
                            assert(o[k + 1]@ == x);
                            assert(o[i as int]@ != o[k + 1]@);
                        }
                    }
                    if has_member(o, x) && x != address@ {
                        let k = choose|k: int| 0 <= k < o.len() && o[k]@ == x;
                        if k < i {
                            assert(l[k]@ == x);
                        } else {
                            assert(k != i);
                            assert(l[k - 1]@ == x);
                        }
                    }
                };
            }
        },
        None => {},
    }
    Ok(())
}

} // verus!
