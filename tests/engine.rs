use pfc_fee_splitter::distribute::deposit;
use pfc_fee_splitter::governance::{
    accept_gov_contract, add_to_flush_whitelist, remove_from_flush_whitelist, update_gov_contract,
};
use pfc_fee_splitter::migrate::{migrate, ConfigV100, MigrateAction};
use pfc_fee_splitter::reconcile::reconcile;
use pfc_fee_splitter::registry::{
    add_allocation_detail, instantiate, modify_allocation_detail, parse_send_type,
    query_allocation, query_allocations, remove_allocation_detail,
};
use pfc_fee_splitter::state::State;
use pfc_fee_splitter::types::{AllocationDetail, Coin, ContractError, Dispatch, SendType};

const GOV: &str = "gov";

fn coin(amount: u128, denom: &str) -> Coin {
    Coin { denom: denom.to_string(), amount }
}

fn detail(name: &str, weight: u8, threshold: Coin, kind: &str) -> AllocationDetail {
    AllocationDetail {
        name: name.to_string(),
        contract: format!("{}_addr", name),
        allocation: weight,
        send_after: threshold,
        send_type: kind.to_string(),
    }
}

fn setup(entries: Vec<AllocationDetail>) -> State {
    instantiate("self".to_string(), GOV.to_string(), entries, None).unwrap().0
}

fn balance_of(state: &State, name: &str, denom: &str) -> u128 {
    let h = query_allocation(state, &name.to_string()).unwrap();
    h.balance.iter().filter(|c| c.denom == denom).map(|c| c.amount).sum()
}

fn two_equal() -> State {
    setup(vec![
        detail("A", 1, coin(u128::MAX, "x"), "Wallet"),
        detail("B", 1, coin(u128::MAX, "x"), "Wallet"),
    ])
}

#[test]
fn remainder_goes_to_last_entry() {
    let mut state = two_equal();
    let sent = deposit(&mut state, &"anyone".to_string(), &vec![coin(1001, "x")], false).unwrap();
    assert!(sent.is_empty());
    assert_eq!(balance_of(&state, "A", "x"), 500);
    assert_eq!(balance_of(&state, "B", "x"), 501);
}

#[test]
fn weighted_split_is_exact() {
    let mut state = setup(vec![
        detail("A", 1, coin(u128::MAX, "x"), "Wallet"),
        detail("B", 2, coin(u128::MAX, "x"), "Contract"),
        detail("C", 3, coin(u128::MAX, "x"), "Wallet"),
    ]);
    deposit(&mut state, &GOV.to_string(), &vec![coin(100, "x"), coin(7, "y")], false).unwrap();
    // 100 * 1/6 = 16, 100 * 2/6 = 33, the rest 51
    assert_eq!(balance_of(&state, "A", "x"), 16);
    assert_eq!(balance_of(&state, "B", "x"), 33);
    assert_eq!(balance_of(&state, "C", "x"), 51);
    // 7 * 1/6 = 1, 7 * 2/6 = 2, the rest 4
    assert_eq!(balance_of(&state, "A", "y"), 1);
    assert_eq!(balance_of(&state, "B", "y"), 2);
    assert_eq!(balance_of(&state, "C", "y"), 4);
}

#[test]
fn large_amounts_do_not_overflow() {
    let mut state = setup(vec![
        detail("A", 255, coin(u128::MAX, "x"), "Wallet"),
        detail("B", 1, coin(u128::MAX, "x"), "Wallet"),
    ]);
    let big = u128::MAX - 5;
    deposit(&mut state, &GOV.to_string(), &vec![coin(big, "x")], false).unwrap();
    let a = balance_of(&state, "A", "x");
    let b = balance_of(&state, "B", "x");
    assert_eq!(a, big / 256 * 255 + (big % 256) * 255 / 256);
    assert_eq!(a + b, big);
}

#[test]
fn conservation_over_deposits_and_flushes() {
    let mut state = setup(vec![
        detail("A", 3, coin(10, "x"), "Wallet"),
        detail("B", 5, coin(1_000, "x"), "Contract"),
        detail("C", 7, coin(1, "y"), "Wallet"),
    ]);
    let mut dispatched: u128 = 0;
    let mut deposited: u128 = 0;
    for (i, amount) in [97u128, 13, 1, 250, 4].iter().enumerate() {
        let flush = i % 2 == 1;
        let sent = deposit(&mut state, &GOV.to_string(), &vec![coin(*amount, "x")], flush).unwrap();
        deposited += amount;
        for d in sent.iter() {
            dispatched += d.funds.iter().filter(|c| c.denom == "x").map(|c| c.amount).sum::<u128>();
        }
    }
    let held: u128 = ["A", "B", "C"].iter().map(|n| balance_of(&state, n, "x")).sum();
    assert_eq!(held + dispatched, deposited);
}

#[test]
fn deposit_is_deterministic() {
    let mut s1 = two_equal();
    let mut s2 = two_equal();
    add_to_flush_whitelist(&mut s1, &GOV.to_string(), "bot".to_string()).unwrap();
    add_to_flush_whitelist(&mut s2, &GOV.to_string(), "bot".to_string()).unwrap();
    let funds = vec![coin(12345, "x"), coin(3, "z")];
    let r1 = deposit(&mut s1, &"bot".to_string(), &funds, true).unwrap();
    let r2 = deposit(&mut s2, &"bot".to_string(), &funds, true).unwrap();
    assert_eq!(r1, r2);
    assert_eq!(s1.holdings, s2.holdings);
}

#[test]
fn flush_respects_thresholds() {
    let mut state = setup(vec![
        detail("A", 1, coin(400, "x"), "Wallet"),
        detail("B", 1, coin(600, "x"), "Contract"),
    ]);
    let sent = deposit(&mut state, &GOV.to_string(), &vec![coin(1000, "x")], true).unwrap();
    assert_eq!(
        sent,
        vec![Dispatch {
            recipient: "A_addr".to_string(),
            send_type: SendType::Wallet,
            funds: vec![coin(500, "x")],
        }]
    );
    assert_eq!(balance_of(&state, "A", "x"), 0);
    assert_eq!(balance_of(&state, "B", "x"), 500);
    let sent = deposit(&mut state, &GOV.to_string(), &vec![coin(200, "x")], true).unwrap();
    assert_eq!(
        sent,
        vec![Dispatch {
            recipient: "B_addr".to_string(),
            send_type: SendType::Contract,
            funds: vec![coin(600, "x")],
        }]
    );
    assert_eq!(balance_of(&state, "A", "x"), 100);
}

#[test]
fn flush_by_stranger_only_accrues() {
    let mut state = setup(vec![detail("A", 1, coin(1, "x"), "Wallet")]);
    let sent = deposit(&mut state, &"stranger".to_string(), &vec![coin(50, "x")], true).unwrap();
    assert!(sent.is_empty());
    assert_eq!(balance_of(&state, "A", "x"), 50);
    add_to_flush_whitelist(&mut state, &GOV.to_string(), "stranger".to_string()).unwrap();
    let sent = deposit(&mut state, &"stranger".to_string(), &vec![coin(1, "x")], true).unwrap();
    assert_eq!(sent.len(), 1);
    assert_eq!(sent[0].funds, vec![coin(51, "x")]);
}

#[test]
fn deposit_errors() {
    let mut state = two_equal();
    assert_eq!(
        deposit(&mut state, &GOV.to_string(), &vec![], false),
        Err(ContractError::NoFundsError)
    );
    assert_eq!(
        deposit(&mut state, &GOV.to_string(), &vec![coin(5, "x"), coin(0, "q")], false),
        Err(ContractError::ZeroAmount { denom: "q".to_string() })
    );
    assert_eq!(balance_of(&state, "A", "x"), 0);
    remove_allocation_detail(&mut state, &GOV.to_string(), "A".to_string()).unwrap();
    remove_allocation_detail(&mut state, &GOV.to_string(), "B".to_string()).unwrap();
    assert_eq!(
        deposit(&mut state, &GOV.to_string(), &vec![coin(5, "x")], false),
        Err(ContractError::EmptyRegistry)
    );
}

#[test]
fn governance_transfer_scenario() {
    let mut state = two_equal();
    update_gov_contract(&mut state, &GOV.to_string(), "newAddr".to_string(), 100, 10).unwrap();
    assert_eq!(state.config.change_gov_contract_by_height, Some(110));
    assert_eq!(
        accept_gov_contract(&mut state, &"newAddr".to_string(), 109),
        Err(ContractError::GovChangeNotYetActive)
    );
    assert_eq!(
        accept_gov_contract(&mut state, &"other".to_string(), 200),
        Err(ContractError::Unauthorized)
    );
    assert_eq!(accept_gov_contract(&mut state, &"newAddr".to_string(), 110), Ok(()));
    assert_eq!(state.config.gov_contract, "newAddr".to_string());
    assert_eq!(state.config.new_gov_contract, None);
    assert_eq!(
        accept_gov_contract(&mut state, &"newAddr".to_string(), 111),
        Err(ContractError::Unauthorized)
    );
}

#[test]
fn governance_renomination_and_auth() {
    let mut state = two_equal();
    assert_eq!(
        update_gov_contract(&mut state, &"intruder".to_string(), "x".to_string(), 1, 1),
        Err(ContractError::Unauthorized)
    );
    update_gov_contract(&mut state, &GOV.to_string(), "first".to_string(), 5, 0).unwrap();
    update_gov_contract(&mut state, &GOV.to_string(), "second".to_string(), 5, 0).unwrap();
    assert_eq!(
        accept_gov_contract(&mut state, &"first".to_string(), 10),
        Err(ContractError::Unauthorized)
    );
    assert_eq!(accept_gov_contract(&mut state, &"second".to_string(), 10), Ok(()));
}

#[test]
fn setup_duplicate_name_fails_whole_setup() {
    let r = instantiate(
        "self".to_string(),
        GOV.to_string(),
        vec![
            detail("A", 1, coin(1, "x"), "Wallet"),
            detail("B", 1, coin(1, "x"), "Wallet"),
            detail("A", 2, coin(1, "x"), "Wallet"),
        ],
        None,
    );
    assert_eq!(r.err(), Some(ContractError::FundAllocationNotUnique));
}

#[test]
fn setup_validation_errors() {
    let bad_denom = instantiate(
        "self".to_string(),
        GOV.to_string(),
        vec![detail("A", 1, coin(1, ""), "Wallet")],
        None,
    );
    assert_eq!(bad_denom.err(), Some(ContractError::InvalidCoin { coin: coin(1, "") }));
    let bad_kind = instantiate(
        "self".to_string(),
        GOV.to_string(),
        vec![detail("A", 1, coin(1, "x"), "Wallet"), detail("B", 1, coin(1, "x"), "Bank")],
        None,
    );
    assert_eq!(bad_kind.err(), Some(ContractError::SendTypeInvalid { send_type: "Bank".to_string() }));
    let zero = instantiate(
        "self".to_string(),
        GOV.to_string(),
        vec![detail("A", 0, coin(1, "x"), "Contract")],
        None,
    );
    assert_eq!(zero.err(), Some(ContractError::AllocationZero));
}

#[test]
fn send_type_tags() {
    assert_eq!(parse_send_type(&"Wallet".to_string()), Some(SendType::Wallet));
    assert_eq!(parse_send_type(&"Contract".to_string()), Some(SendType::Contract));
    assert_eq!(parse_send_type(&"wallet".to_string()), None);
}

#[test]
fn whitelist_add_twice_and_remove_absent() {
    let mut state = two_equal();
    add_to_flush_whitelist(&mut state, &GOV.to_string(), "bot".to_string()).unwrap();
    let once = state.flush_whitelist.clone();
    add_to_flush_whitelist(&mut state, &GOV.to_string(), "bot".to_string()).unwrap();
    assert_eq!(state.flush_whitelist, once);
    assert_eq!(once, vec!["bot".to_string()]);
    assert_eq!(remove_from_flush_whitelist(&mut state, &GOV.to_string(), &"nobody".to_string()), Ok(()));
    assert_eq!(state.flush_whitelist, once);
    remove_from_flush_whitelist(&mut state, &GOV.to_string(), &"bot".to_string()).unwrap();
    assert!(state.flush_whitelist.is_empty());
    assert_eq!(
        add_to_flush_whitelist(&mut state, &"bot".to_string(), "bot".to_string()),
        Err(ContractError::Unauthorized)
    );
}

#[test]
fn registry_admin_operations() {
    let mut state = two_equal();
    assert_eq!(
        add_allocation_detail(&mut state, &"bot".to_string(), detail("C", 1, coin(1, "x"), "Wallet")),
        Err(ContractError::Unauthorized)
    );
    assert_eq!(
        add_allocation_detail(&mut state, &GOV.to_string(), detail("A", 1, coin(1, "x"), "Wallet")),
        Err(ContractError::FundAllocationNotUnique)
    );
    add_allocation_detail(&mut state, &GOV.to_string(), detail("C", 2, coin(1, "x"), "Contract")).unwrap();
    let names: Vec<String> = query_allocations(&state, None, None).iter().map(|h| h.name.clone()).collect();
    assert_eq!(names, vec!["A".to_string(), "B".to_string(), "C".to_string()]);
    deposit(&mut state, &GOV.to_string(), &vec![coin(8, "x")], false).unwrap();
    modify_allocation_detail(
        &mut state,
        &GOV.to_string(),
        "B".to_string(),
        "B_new".to_string(),
        4,
        coin(9, "x"),
        "Contract".to_string(),
    )
    .unwrap();
    let b = query_allocation(&state, &"B".to_string()).unwrap();
    assert_eq!(b.contract, "B_new".to_string());
    assert_eq!(b.allocation, 4);
    assert_eq!(b.send_type, SendType::Contract);
    assert_eq!(b.balance, vec![coin(2, "x")]);
    assert_eq!(
        modify_allocation_detail(
            &mut state,
            &GOV.to_string(),
            "Z".to_string(),
            "z".to_string(),
            1,
            coin(1, "x"),
            "Wallet".to_string(),
        ),
        Err(ContractError::AllocationNotFound { name: "Z".to_string() })
    );
    assert_eq!(
        remove_allocation_detail(&mut state, &GOV.to_string(), "Z".to_string()),
        Err(ContractError::AllocationNotFound { name: "Z".to_string() })
    );
    remove_allocation_detail(&mut state, &GOV.to_string(), "A".to_string()).unwrap();
    assert!(query_allocation(&state, &"A".to_string()).is_none());
}

#[test]
fn allocation_pages() {
    let entries: Vec<AllocationDetail> =
        (0..35u8).map(|i| detail(&format!("e{:02}", i), 1, coin(1, "x"), "Wallet")).collect();
    let state = setup(entries);
    assert_eq!(query_allocations(&state, None, None).len(), 10);
    assert_eq!(query_allocations(&state, None, Some(100)).len(), 30);
    let page = query_allocations(&state, Some("e30".to_string()), Some(3));
    let names: Vec<String> = page.iter().map(|h| h.name.clone()).collect();
    assert_eq!(names, vec!["e31".to_string(), "e32".to_string(), "e33".to_string()]);
    assert!(query_allocations(&state, Some("missing".to_string()), None).is_empty());
}

#[test]
fn reconcile_credits_surplus_to_first_entry() {
    let mut state = two_equal();
    deposit(&mut state, &GOV.to_string(), &vec![coin(100, "x")], false).unwrap();
    reconcile(&mut state, &vec![coin(130, "x"), coin(7, "y")]).unwrap();
    assert_eq!(balance_of(&state, "A", "x"), 80);
    assert_eq!(balance_of(&state, "B", "x"), 50);
    assert_eq!(balance_of(&state, "A", "y"), 7);
    assert_eq!(
        reconcile(&mut state, &vec![coin(129, "x")]),
        Err(ContractError::ReconcileDeficit { denom: "x".to_string() })
    );
    assert_eq!(balance_of(&state, "A", "x"), 80);
}

#[test]
fn migration_decisions() {
    assert_eq!(
        migrate(&"pfc-fee-split".to_string(), &"0.1.1".to_string()),
        Ok(MigrateAction::ConvertConfigV100)
    );
    assert_eq!(
        migrate(&"pfc-fee-split".to_string(), &"0.2.0".to_string()),
        Ok(MigrateAction::KeepConfig)
    );
    assert_eq!(
        migrate(&"other".to_string(), &"1.0.0".to_string()),
        Err(ContractError::MigrationError {
            current_name: "other".to_string(),
            current_version: "1.0.0".to_string(),
        })
    );
    let c = ConfigV100 { this: "me".to_string(), gov_contract: "g".to_string() }.migrate_from();
    assert_eq!(c.gov_contract, "g".to_string());
    assert_eq!(c.new_gov_contract, None);
}

#[test]
fn reconcile_reports_accrued_denomination_not_held() {
    let mut state = two_equal();
    deposit(&mut state, &GOV.to_string(), &vec![coin(10, "x"), coin(4, "y")], false).unwrap();
    assert_eq!(
        reconcile(&mut state, &vec![coin(10, "x")]),
        Err(ContractError::ReconcileDeficit { denom: "y".to_string() })
    );
    assert_eq!(balance_of(&state, "B", "y"), 2);
    assert_eq!(reconcile(&mut state, &vec![coin(10, "x"), coin(4, "y")]), Ok(()));
}

#[test]
fn entries_are_listed_by_name() {
    let mut state = setup(vec![
        detail("beta", 1, coin(1, "x"), "Wallet"),
        detail("alpha", 1, coin(1, "x"), "Wallet"),
    ]);
    add_allocation_detail(&mut state, &GOV.to_string(), detail("gamma", 1, coin(1, "x"), "Wallet")).unwrap();
    add_allocation_detail(&mut state, &GOV.to_string(), detail("delta", 1, coin(1, "x"), "Wallet")).unwrap();
    let names: Vec<String> = query_allocations(&state, None, None).iter().map(|h| h.name.clone()).collect();
    assert_eq!(names, vec!["alpha", "beta", "delta", "gamma"]);
    // a cursor that names no entry continues with the names after it
    let names: Vec<String> =
        query_allocations(&state, Some("bz".to_string()), Some(2)).iter().map(|h| h.name.clone()).collect();
    assert_eq!(names, vec!["delta", "gamma"]);
    // the remainder of a split goes to the last entry by name
    deposit(&mut state, &GOV.to_string(), &vec![coin(7, "x")], false).unwrap();
    assert_eq!(balance_of(&state, "gamma", "x"), 4);
    assert_eq!(balance_of(&state, "alpha", "x"), 1);
}

#[test]
fn blank_threshold_denomination_is_rejected() {
    let r = instantiate("self".to_string(), GOV.to_string(), vec![detail("A", 1, coin(1, " "), "Wallet")], None);
    assert_eq!(r.err(), Some(ContractError::InvalidCoin { coin: coin(1, " ") }));
    let r = instantiate("self".to_string(), GOV.to_string(), vec![detail("A", 1, coin(1, "\t\u{3000}"), "Wallet")], None);
    assert_eq!(r.err(), Some(ContractError::InvalidCoin { coin: coin(1, "\t\u{3000}") }));
    let mut state = two_equal();
    assert_eq!(
        add_allocation_detail(&mut state, &GOV.to_string(), detail("C", 1, coin(1, "  "), "Wallet")),
        Err(ContractError::InvalidCoin { coin: coin(1, "  ") })
    );
    assert_eq!(
        modify_allocation_detail(
            &mut state,
            &GOV.to_string(),
            "A".to_string(),
            "a".to_string(),
            1,
            coin(1, " "),
            "Wallet".to_string(),
        ),
        Err(ContractError::InvalidCoin { coin: coin(1, " ") })
    );
}

#[test]
fn empty_name_is_rejected() {
    let r = instantiate("self".to_string(), GOV.to_string(), vec![detail("", 1, coin(1, "x"), "Wallet")], None);
    assert_eq!(r.err(), Some(ContractError::InvalidName));
    let mut state = two_equal();
    assert_eq!(
        add_allocation_detail(&mut state, &GOV.to_string(), detail("", 1, coin(1, "x"), "Wallet")),
        Err(ContractError::InvalidName)
    );
}

#[test]
fn zero_shares_add_no_coin() {
    let mut state = setup(vec![
        detail("A", 1, coin(1, "x"), "Wallet"),
        detail("B", 200, coin(1, "x"), "Wallet"),
    ]);
    deposit(&mut state, &GOV.to_string(), &vec![coin(100, "x")], false).unwrap();
    assert!(query_allocation(&state, &"A".to_string()).unwrap().balance.is_empty());
    let sent = deposit(&mut state, &GOV.to_string(), &vec![coin(1, "y")], true).unwrap();
    assert_eq!(sent.len(), 1);
    assert_eq!(sent[0].funds, vec![coin(100, "x"), coin(1, "y")]);
}

#[test]
fn overflowing_deposit_is_refused() {
    let mut state = two_equal();
    deposit(&mut state, &GOV.to_string(), &vec![coin(u128::MAX, "x")], false).unwrap();
    assert_eq!(
        deposit(&mut state, &GOV.to_string(), &vec![coin(u128::MAX / 2 + 2, "x")], false),
        Err(ContractError::BalanceOverflow)
    );
    assert_eq!(balance_of(&state, "A", "x"), u128::MAX / 2);
    assert!(deposit(&mut state, &GOV.to_string(), &vec![coin(5, "y")], false).is_ok());
}
