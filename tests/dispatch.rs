use pfc_fee_splitter::contract::{execute, query, Call, ExecuteMsg, QueryMsg, QueryResponse};
use pfc_fee_splitter::registry::instantiate;
use pfc_fee_splitter::state::State;
use pfc_fee_splitter::types::{AllocationDetail, Coin, ContractError, SendType};

fn coin(amount: u128, denom: &str) -> Coin {
    Coin { denom: denom.to_string(), amount }
}

fn call(sender: &str, funds: Vec<Coin>, height: u64) -> Call {
    Call { sender: sender.to_string(), funds, height, balances: vec![] }
}

fn state() -> State {
    let entries = vec![
        AllocationDetail {
            name: "A".to_string(),
            contract: "a_addr".to_string(),
            allocation: 1,
            send_after: coin(10, "x"),
            send_type: "Wallet".to_string(),
        },
        AllocationDetail {
            name: "B".to_string(),
            contract: "b_addr".to_string(),
            allocation: 3,
            send_after: coin(10, "x"),
            send_type: "Contract".to_string(),
        },
    ];
    instantiate("self".to_string(), "gov".to_string(), entries, None).unwrap().0
}

#[test]
fn execute_deposit_and_flush() {
    let mut s = state();
    let sent = execute(&mut s, &call("gov", vec![coin(101, "x")], 1), ExecuteMsg::Deposit { flush: true }).unwrap();
    assert_eq!(sent.len(), 2);
    assert_eq!(sent[0].recipient, "a_addr".to_string());
    assert_eq!(sent[0].funds, vec![coin(25, "x")]);
    assert_eq!(sent[1].send_type, SendType::Contract);
    assert_eq!(sent[1].funds, vec![coin(76, "x")]);
}

#[test]
fn execute_admin_commands_return_no_dispatch() {
    let mut s = state();
    let r = execute(
        &mut s,
        &call("gov", vec![], 5),
        ExecuteMsg::TransferGovContract { gov_contract: "next".to_string(), blocks: 3 },
    );
    assert_eq!(r, Ok(vec![]));
    assert_eq!(
        execute(&mut s, &call("next", vec![], 7), ExecuteMsg::AcceptGovContract),
        Err(ContractError::GovChangeNotYetActive)
    );
    assert_eq!(execute(&mut s, &call("next", vec![], 8), ExecuteMsg::AcceptGovContract), Ok(vec![]));
    assert_eq!(
        execute(&mut s, &call("gov", vec![], 9), ExecuteMsg::RemoveAllocationDetail { name: "A".to_string() }),
        Err(ContractError::Unauthorized)
    );
    assert_eq!(
        execute(&mut s, &call("next", vec![], 9), ExecuteMsg::RemoveAllocationDetail { name: "A".to_string() }),
        Ok(vec![])
    );
    let mut with_balances = call("anyone", vec![], 9);
    with_balances.balances = vec![coin(5, "x")];
    assert_eq!(execute(&mut s, &with_balances, ExecuteMsg::Reconcile), Ok(vec![]));
    match query(&s, QueryMsg::Allocation { name: "B".to_string() }) {
        QueryResponse::Allocation(Some(h)) => assert_eq!(h.balance, vec![coin(5, "x")]),
        _ => panic!("entry B should be found"),
    }
}

#[test]
fn query_answers() {
    let mut s = state();
    execute(
        &mut s,
        &call("gov", vec![], 1),
        ExecuteMsg::AddToFlushWhitelist { address: "bot".to_string() },
    )
    .unwrap();
    match query(&s, QueryMsg::Ownership) {
        QueryResponse::Ownership { owner, new_owner, block_height } => {
            assert_eq!(owner, "gov".to_string());
            assert_eq!(new_owner, None);
            assert_eq!(block_height, None);
        }
        _ => panic!("wrong answer"),
    }
    match query(&s, QueryMsg::FlushWhitelist) {
        QueryResponse::FlushWhitelist(list) => assert_eq!(list, vec!["bot".to_string()]),
        _ => panic!("wrong answer"),
    }
    match query(&s, QueryMsg::Allocations { start_after: Some("A".to_string()), limit: None }) {
        QueryResponse::Allocations(page) => {
            assert_eq!(page.len(), 1);
            assert_eq!(page[0].name, "B".to_string());
        }
        _ => panic!("wrong answer"),
    }
    match query(&s, QueryMsg::Allocation { name: "Z".to_string() }) {
        QueryResponse::Allocation(found) => assert!(found.is_none()),
        _ => panic!("wrong answer"),
    }
}
