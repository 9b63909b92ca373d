use pfc_fee_splitter::registry::{instantiate, query_allocation};
use pfc_fee_splitter::types::{
    AllocationDetail, AllocationHolding, Coin, ContractError, InitHook, SendType,
};

const ALLOCATION_1: &str = "allocation_1";
const ALLOCATION_2: &str = "allocation_2";
const DENOM_1: &str = "uluna";
const GOV_CONTRACT: &str = "gov_contract";
const THIS: &str = "fee_split_contract";

fn coin(amount: u128, denom: &str) -> Coin {
    Coin { denom: denom.to_string(), amount }
}

fn one_allocation() -> Vec<AllocationDetail> {
    vec![AllocationDetail {
        name: ALLOCATION_1.to_string(),
        contract: "allocation_1_addr".to_string(),
        allocation: 1,
        send_after: coin(1_000u128, DENOM_1),
        send_type: "Wallet".to_string(),
    }]
}

#[test]
fn basic() {
    let hook_msg = r#"{"some": 123}"#.as_bytes().to_vec();
    let hook = InitHook { contract_addr: String::from("hook_dest"), msg: hook_msg.clone() };
    let (state, sent) = instantiate(
        THIS.to_string(),
        String::from(GOV_CONTRACT),
        one_allocation(),
        Some(hook),
    )
    .unwrap();
    assert_eq!(sent, Some(InitHook { contract_addr: String::from("hook_dest"), msg: hook_msg }));
    assert_eq!(
        query_allocation(&state, &ALLOCATION_1.to_string()).unwrap(),
        AllocationHolding {
            name: ALLOCATION_1.to_string(),
            contract: "allocation_1_addr".to_string(),
            allocation: 1,
            send_after: coin(1_000u128, DENOM_1),
            send_type: SendType::Wallet,
            balance: vec![],
        }
    );
    match instantiate(THIS.to_string(), String::from(GOV_CONTRACT), vec![], None) {
        Err(ContractError::NoFeesError) => {}
        Err(err) => panic!("Invalid Error type {:?}", err),
        Ok(_) => panic!("should have failed"),
    }
}

#[test]
fn dupe_holdings() {
    let allocation = vec![
        AllocationDetail {
            name: ALLOCATION_1.to_string(),
            contract: "allocation_1_addr".to_string(),
            allocation: 1,
            send_after: coin(1_000u128, DENOM_1),
            send_type: "Wallet".to_string(),
        },
        AllocationDetail {
            name: ALLOCATION_2.to_string(),
            contract: "allocation_2_addr".to_string(),
            allocation: 1,
            send_after: coin(1_0000_000u128, DENOM_1),
            send_type: "Wallet".to_string(),
        },
        AllocationDetail {
            name: ALLOCATION_1.to_string(),
            contract: "allocation_3_addr".to_string(),
            allocation: 3,
            send_after: coin(1_0000_000u128, DENOM_1),
            send_type: "Wallet".to_string(),
        },
    ];
    match instantiate(THIS.to_string(), String::from(GOV_CONTRACT), allocation, None) {
        Err(ContractError::FundAllocationNotUnique) => {}
        _ => panic!("this should have returned an FundAllocationNotUnique error"),
    }
}
