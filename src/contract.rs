use vstd::prelude::*;
use crate::types::{AllocationDetail, AllocationHolding, Coin, ContractError, Dispatch, same_terms};
use crate::state::State;
use crate::distribute::{deposit, deposit_post};
use crate::registry::{
    add_allocation_detail, add_post, modify_allocation_detail, modify_post, page_size, page_start,
    query_allocation, query_allocations, remove_allocation_detail, remove_post,
};
use crate::state::find_name;
use crate::governance::{
    accept_gov_contract, accept_post, add_to_flush_whitelist, remove_from_flush_whitelist,
    update_gov_contract, update_post, whitelist_add_post, whitelist_remove_post,
};
use crate::reconcile::{denoms_distinct, reconcile, reconcile_post};

verus! {

/// A command to the splitter.
pub enum ExecuteMsg {
    Deposit { flush: bool },
    AddAllocationDetail {
        name: String,
        contract: String,
        allocation: u8,
        send_after: Coin,
        send_type: String,
    },
    RemoveAllocationDetail { name: String },
    ModifyAllocationDetail {
        name: String,
        contract: String,
        allocation: u8,
        send_after: Coin,
        send_type: String,
    },
    TransferGovContract { gov_contract: String, blocks: u64 },
    AcceptGovContract,
    Reconcile,
    AddToFlushWhitelist { address: String },
    RemoveFromFlushWhitelist { address: String },
}

/// What the host tells about a command: who sent it, the funds sent with it, the
/// current block height, and what the splitter holds.
pub struct Call {
    pub sender: String,
    pub funds: Vec<Coin>,
    pub height: u64,
    pub balances: Vec<Coin>,
}

/// A command's result without its dispatches.
pub open spec fn unit_of(r: Result<Vec<Dispatch>, ContractError>) -> Result<(), ContractError> {
    match r {
        Ok(_) => Ok(()),
        Err(e) => Err(e),
    }
}

fn no_dispatch(r: Result<(), ContractError>) -> (o: Result<Vec<Dispatch>, ContractError>)
    ensures
        o is Ok <==> r is Ok,
        o matches Ok(v) ==> v@.len() == 0,
        r matches Err(e) ==> o == Err::<Vec<Dispatch>, ContractError>(e),
{
    match r {
        Ok(_) => Ok(Vec::new()),
        Err(e) => Err(e),
    }
}

/// Runs one command on the splitter. A deposit returns the dispatches it produced;
/// every other command returns none.
pub fn execute(state: &mut State, call: &Call, msg: ExecuteMsg) -> (r: Result<
    Vec<Dispatch>,
    ContractError,
>)
    requires
        old(state).wf(),
        msg matches ExecuteMsg::TransferGovContract { blocks, .. } ==> call.height + blocks
            <= u64::MAX,
        msg is Reconcile ==> denoms_distinct(call.balances@),
    ensures
        final(state).wf(),
        !(msg is Deposit) ==> (r matches Ok(v) ==> v@.len() == 0),
        match msg {
            ExecuteMsg::Deposit { flush } => deposit_post(
                *old(state),
                call.sender@,
                call.funds@,
                flush,
                *final(state),
                r,
            ),
            ExecuteMsg::AddAllocationDetail { name, contract, allocation, send_after, send_type } =>
                add_post(
                *old(state),
                call.sender@,
                AllocationDetail { name, contract, allocation, send_after, send_type },
                *final(state),
                unit_of(r),
            ),
            ExecuteMsg::RemoveAllocationDetail { name } => remove_post(
                *old(state),
                call.sender@,
                name,
                *final(state),
                unit_of(r),
            ),
            ExecuteMsg::ModifyAllocationDetail {
                name,
                contract,
                allocation,
                send_after,
                send_type,
            } => modify_post(
                *old(state),
                call.sender@,
                name,
                contract,
                allocation,
                send_after,
                send_type,
                *final(state),
                unit_of(r),
            ),
            ExecuteMsg::TransferGovContract { gov_contract, blocks } => update_post(
                *old(state),
                call.sender@,
                gov_contract,
                blocks,
                call.height,
                *final(state),
                unit_of(r),
            ),
            ExecuteMsg::AcceptGovContract => accept_post(
                *old(state),
                call.sender@,
                call.height,
                *final(state),
                unit_of(r),
            ),
            ExecuteMsg::Reconcile => reconcile_post(
                *old(state),
                call.balances@,
                *final(state),
                unit_of(r),
            ),
            ExecuteMsg::AddToFlushWhitelist { address } => whitelist_add_post(
                *old(state),
                call.sender@,
                address,
                *final(state),
                unit_of(r),
            ),
            ExecuteMsg::RemoveFromFlushWhitelist { address } => whitelist_remove_post(
                *old(state),
                call.sender@,
                address@,
                *final(state),
                unit_of(r),
            ),
        },
{
    match msg {
        ExecuteMsg::Deposit { flush } => deposit(state, &call.sender, &call.funds, flush),
        ExecuteMsg::AddAllocationDetail { name, contract, allocation, send_after, send_type } => {
            let detail = AllocationDetail { name, contract, allocation, send_after, send_type };
            no_dispatch(add_allocation_detail(state, &call.sender, detail))
        },
        ExecuteMsg::RemoveAllocationDetail { name } => {
            no_dispatch(remove_allocation_detail(state, &call.sender, name))
        },
        ExecuteMsg::ModifyAllocationDetail { name, contract, allocation, send_after, send_type } => {
            no_dispatch(
                modify_allocation_detail(
                    state,
                    &call.sender,
                    name,
                    contract,
                    allocation,
                    send_after,
                    send_type,
                ),
            )
        },
        ExecuteMsg::TransferGovContract { gov_contract, blocks } => {
            no_dispatch(update_gov_contract(state, &call.sender, gov_contract, blocks, call.height))
        },
        ExecuteMsg::AcceptGovContract => {
            no_dispatch(accept_gov_contract(state, &call.sender, call.height))
        },
        ExecuteMsg::Reconcile => no_dispatch(reconcile(state, &call.balances)),
        ExecuteMsg::AddToFlushWhitelist { address } => {
            no_dispatch(add_to_flush_whitelist(state, &call.sender, address))
        },
        ExecuteMsg::RemoveFromFlushWhitelist { address } => {
            no_dispatch(remove_from_flush_whitelist(state, &call.sender, &address))
        },
    }
}

/// A question to the splitter.
pub enum QueryMsg {
    Ownership,
    Allocations { start_after: Option<String>, limit: Option<u32> },
    Allocation { name: String },
    FlushWhitelist,
}

/// The answer to a question.
pub enum QueryResponse {
    Ownership { owner: String, new_owner: Option<String>, block_height: Option<u64> },
    Allocations(Vec<AllocationHolding>),
    Allocation(Option<AllocationHolding>),
    FlushWhitelist(Vec<String>),
}

fn copy_strings(v: &Vec<String>) -> (r: Vec<String>)
    ensures
        r@ == v@,
{
    let mut r: Vec<String> = Vec::new();
    let mut i: usize = 0;
    while i < v.len()
        invariant
            i <= v@.len(),
            r@ == v@.take(i as int),
        decreases v@.len() - i,
    {
        r.push(v[i].clone());
        i = i + 1;
        assert(r@ =~= v@.take(i as int));
    }
    assert(v@.take(v@.len() as int) =~= v@);
    r
}

/// Answers a question about the splitter; nothing changes.
pub fn query(state: &State, msg: QueryMsg) -> (r: QueryResponse)
    requires
        state.wf(),
    ensures
        match msg {
            QueryMsg::Ownership => r == QueryResponse::Ownership {
                owner: state.config.gov_contract,
                new_owner: state.config.new_gov_contract,
                block_height: state.config.change_gov_contract_by_height,
            },
            QueryMsg::Allocations { start_after, limit } => r matches QueryResponse::Allocations(page) && {
                let es = state.holdings@;
                let s = page_start(es, start_after);
                let m = page_size(limit);
                &&& page@.len() == if es.len() - s < m { es.len() - s } else { m }
                &&& forall|k: int|
                    0 <= k < page@.len() ==> same_terms(#[trigger] page@[k], es[s + k])
                        && page@[k].balance@ == es[s + k].balance@
            },
            QueryMsg::Allocation { name } => r matches QueryResponse::Allocation(found) && {
                &&& found is Some <==> find_name(state.holdings@, name@) is Some
                &&& found matches Some(h) ==> {
                    let e = state.holdings@[find_name(state.holdings@, name@)->Some_0];
                    same_terms(h, e) && h.balance@ == e.balance@
                }
            },
            QueryMsg::FlushWhitelist => r matches QueryResponse::FlushWhitelist(list) && list@
                == state.flush_whitelist@,
        },
{
    match msg {
        QueryMsg::Ownership => QueryResponse::Ownership {
            owner: state.config.gov_contract.clone(),
            new_owner: match &state.config.new_gov_contract {
                Some(p) => Some(p.clone()),
                None => None,
            },
            block_height: state.config.change_gov_contract_by_height,
        },
        QueryMsg::Allocations { start_after, limit } => QueryResponse::Allocations(
            query_allocations(state, start_after, limit),
        ),
        QueryMsg::Allocation { name } => QueryResponse::Allocation(query_allocation(state, &name)),
        QueryMsg::FlushWhitelist => QueryResponse::FlushWhitelist(copy_strings(&state.flush_whitelist)),
    }
}

} // verus!
