use smart_contract::contracts::{Consumption, ContractState, DiscountLevel, Error, Event};
use smart_contract::engine::Engine;
use smart_contract::ledger::MAX_TOTAL_ISSUANCE;
use smart_contract::types::{CertificationType, Policy, PublicIP, Resources, Unit};

const ALICE: u64 = 1;
const BOB: u64 = 2;
const FERDIE: u64 = 10;
const EVE: u64 = 11;
const GIB: u64 = 1073741824;

fn prepare_billing_setup(e: &mut Engine) {
    e.add_twin(ALICE);
    e.add_twin(BOB);
    e.add_pricing_policy(
        "policy_1".as_bytes().to_vec(),
        Policy { value: 150000, unit: Unit::Gigabytes },
        Policy { value: 300000, unit: Unit::Gigabytes },
        Policy { value: 1000, unit: Unit::Gigabytes },
        Policy { value: 50000, unit: Unit::Gigabytes },
        FERDIE,
        EVE,
    );
    e.add_farm(
        "test_farm".as_bytes().to_vec(),
        1,
        1,
        CertificationType::Diy,
        vec![PublicIP {
            ip: "1.1.1.0".as_bytes().to_vec(),
            gateway: "1.1.1.1".as_bytes().to_vec(),
            contract_id: 0,
        }],
    )
    .unwrap();
    e.add_node(1, 1, Resources { hru: 1, sru: 1, cru: 1, mru: 1 }).unwrap();
}

fn run_to_epoch(e: &mut Engine, from: u64, to: u64) -> Vec<Event> {
    let mut events = Vec::new();
    let mut b = from;
    while b <= to {
        events.extend(e.on_epoch_end(b));
        b += 1;
    }
    events
}

#[test]
fn test_node_contract_billing() {
    let mut e = Engine::new();
    prepare_billing_setup(&mut e);
    e.deposit_balance(ALICE, 1000000000000).unwrap();
    e.deposit_balance(BOB, 2500000000).unwrap();
    e.on_epoch_end(1);
    e.set_now(1628082000);

    e.create_node_contract(
        BOB,
        1,
        "some_data".as_bytes().to_vec(),
        "hash".as_bytes().to_vec(),
        1,
    )
    .unwrap();

    let info = e.contract_billing_information_by_id(1).unwrap();
    assert_eq!(info.last_updated, 1628082000);
    assert_eq!(e.contract_to_bill_at_block(61), vec![1]);

    // One report, exactly 3600 seconds after creation.
    let report = Consumption {
        contract_id: 1,
        timestamp: 1628085600,
        cru: 2,
        sru: 60 * GIB,
        hru: 0,
        mru: 2 * GIB,
        nru: 3 * GIB,
    };
    let seconds_elapsed = report.timestamp - info.last_updated;
    assert_eq!(seconds_elapsed, 3600);
    e.set_now(1628085600);
    e.submit_consumption_reports(ALICE, vec![report]).unwrap();

    let info = e.contract_billing_information_by_id(1).unwrap();
    assert_eq!(info.amount_unbilled, 180001);
    assert_eq!(info.previous_nu_reported, 3);

    // Let the billing cycle mature: the contract fires at epoch 61.
    let events = run_to_epoch(&mut e, 2, 61);
    assert_eq!(events.len(), 1);
    match &events[0] {
        Event::ContractBilled(bill) => {
            assert_eq!(bill.contract_id, 1);
            assert_eq!(bill.discount_level, DiscountLevel::NoDiscount);
            // accrued consumption plus one hour of public-IP usage
            assert_eq!(bill.amount_billed, 180001 + 50000 * 3600);
        }
        _ => panic!("expected a billing event"),
    }

    // 30% foundation, 60% certified sales, remainder to the farmer.
    assert_eq!(e.free_balance(BOB), 2500000000 - 180180001);
    assert_eq!(e.free_balance(FERDIE), 54054000);
    assert_eq!(e.free_balance(EVE), 108108000);
    assert_eq!(e.free_balance(ALICE), 1000000000000 + 18018001);

    let info = e.contract_billing_information_by_id(1).unwrap();
    assert_eq!(info.amount_unbilled, 0);
    assert_eq!(e.contract_to_bill_at_block(121), vec![1]);
}

#[test]
fn test_name_contract_billing() {
    let mut e = Engine::new();
    prepare_billing_setup(&mut e);
    e.deposit_balance(BOB, 2500000000).unwrap();
    e.on_epoch_end(1);
    e.set_now(1628082000);

    e.create_name_contract(BOB, "foobar".as_bytes().to_vec()).unwrap();
    let info = e.contract_billing_information_by_id(1).unwrap();
    assert_eq!(info.last_updated, 1628082000);
    assert_eq!(e.contract_to_bill_at_block(61), vec![1]);

    // A name contract accrues no consumption and holds no IPs: its pass
    // is zero-cost and it is simply rescheduled.
    let events = run_to_epoch(&mut e, 2, 61);
    assert_eq!(events.len(), 0);
    assert_eq!(e.free_balance(BOB), 2500000000);
    assert_eq!(e.contract_to_bill_at_block(121), vec![1]);
    assert_eq!(e.contracts(1).unwrap().state, ContractState::Created);
}

#[test]
fn test_node_contract_reinsertion() {
    let mut e = Engine::new();
    prepare_billing_setup(&mut e);
    e.on_epoch_end(1);
    e.set_now(1628082000);
    e.create_node_contract(
        BOB,
        1,
        "some_data".as_bytes().to_vec(),
        "hash".as_bytes().to_vec(),
        0,
    )
    .unwrap();
    e.create_node_contract(
        BOB,
        1,
        "some_data_t".as_bytes().to_vec(),
        "some_hash".as_bytes().to_vec(),
        0,
    )
    .unwrap();

    assert_eq!(e.contract_to_bill_at_block(61), vec![1, 2]);
    run_to_epoch(&mut e, 2, 61);
    assert_eq!(e.contract_to_bill_at_block(121), vec![1, 2]);
}

#[test]
fn test_contract_billed_once_per_cycle() {
    let mut e = Engine::new();
    prepare_billing_setup(&mut e);
    e.deposit_balance(BOB, 1000000000000).unwrap();
    e.on_epoch_end(1);
    e.set_now(1628082000);
    e.create_node_contract(
        BOB,
        1,
        "some_data".as_bytes().to_vec(),
        "hash".as_bytes().to_vec(),
        1,
    )
    .unwrap();
    // Four billing cycles pass: the contract is billed exactly once per
    // cycle, at epochs 61, 121, 181 and 241. The balance is worth seven
    // months of the cost, so every pass lands in the bronze tier (30%
    // off the raw 180000000 of hourly IP cost).
    let events = run_to_epoch(&mut e, 2, 241);
    assert_eq!(events.len(), 4);
    for ev in &events {
        match ev {
            Event::ContractBilled(bill) => {
                assert_eq!(bill.discount_level, DiscountLevel::Bronze);
                assert_eq!(bill.amount_billed, 126000000);
            }
            _ => panic!("expected a billing event"),
        }
    }
    assert_eq!(e.free_balance(BOB), 1000000000000 - 4 * 126000000);
    assert_eq!(e.contract_to_bill_at_block(301), vec![1]);
}

#[test]
fn test_stale_consumption_report_is_ignored() {
    let mut e = Engine::new();
    prepare_billing_setup(&mut e);
    e.set_now(1628082000);
    e.create_node_contract(
        BOB,
        1,
        "some_data".as_bytes().to_vec(),
        "hash".as_bytes().to_vec(),
        0,
    )
    .unwrap();
    // A report whose timestamp lies before the last accounting changes
    // nothing.
    let stale = Consumption {
        contract_id: 1,
        timestamp: 1628081999,
        cru: 2,
        sru: 60 * GIB,
        hru: 0,
        mru: 2 * GIB,
        nru: 3 * GIB,
    };
    e.submit_consumption_reports(ALICE, vec![stale]).unwrap();
    let info = e.contract_billing_information_by_id(1).unwrap();
    assert_eq!(info.amount_unbilled, 0);
    assert_eq!(info.last_updated, 1628082000);
    assert_eq!(info.previous_nu_reported, 0);
}

#[test]
fn test_accrual_is_monotonic_across_reports() {
    let mut e = Engine::new();
    prepare_billing_setup(&mut e);
    e.set_now(1628082000);
    e.create_node_contract(
        BOB,
        1,
        "some_data".as_bytes().to_vec(),
        "hash".as_bytes().to_vec(),
        0,
    )
    .unwrap();
    let mut last_unbilled = 0u64;
    let timestamps = [1628082600u64, 1628083200, 1628082900, 1628084400];
    let nrus = [GIB, 2 * GIB, 3 * GIB, 2 * GIB];
    let mut i = 0;
    while i < timestamps.len() {
        let report = Consumption {
            contract_id: 1,
            timestamp: timestamps[i],
            cru: 2,
            sru: 10 * GIB,
            hru: 0,
            mru: 2 * GIB,
            nru: nrus[i],
        };
        e.submit_consumption_reports(ALICE, vec![report]).unwrap();
        let info = e.contract_billing_information_by_id(1).unwrap();
        assert!(info.amount_unbilled >= last_unbilled);
        last_unbilled = info.amount_unbilled;
        i += 1;
    }
    assert!(last_unbilled > 0);
}

#[test]
fn test_out_of_funds_decommission_frees_resources() {
    let mut e = Engine::new();
    prepare_billing_setup(&mut e);
    e.deposit_balance(BOB, 1000).unwrap();
    e.on_epoch_end(1);
    e.set_now(1628082000);
    e.create_node_contract(
        BOB,
        1,
        "some_data".as_bytes().to_vec(),
        "hash".as_bytes().to_vec(),
        1,
    )
    .unwrap();
    assert_eq!(e.farms(1).unwrap().public_ips[0].contract_id, 1);

    // The IP cost of the cycle far exceeds the balance: the engine pays
    // what is available and decommissions the contract.
    let events = run_to_epoch(&mut e, 2, 61);
    assert_eq!(events.len(), 1);
    match &events[0] {
        Event::ContractBilled(bill) => {
            assert_eq!(bill.amount_billed, 1000);
        }
        _ => panic!("expected a billing event"),
    }
    assert_eq!(e.contracts(1).unwrap().state, ContractState::OutOfFunds);
    assert_eq!(e.farms(1).unwrap().public_ips[0].contract_id, 0);
    assert_eq!(e.contract_to_bill_at_block(121), Vec::<u64>::new());
    assert_eq!(e.free_balance(BOB), 0);
    // 30% foundation, 60% sales, remainder farmer
    assert_eq!(e.free_balance(FERDIE), 300);
    assert_eq!(e.free_balance(EVE), 600);
    assert_eq!(e.free_balance(ALICE), 100);
}

#[test]
fn test_report_for_unknown_contract_fails() {
    let mut e = Engine::new();
    prepare_billing_setup(&mut e);
    let report = Consumption {
        contract_id: 7,
        timestamp: 10,
        cru: 0,
        sru: 0,
        hru: 0,
        mru: 0,
        nru: 0,
    };
    assert_eq!(
        e.submit_consumption_reports(ALICE, vec![report]),
        Err(Error::ContractNotExists)
    );
}

#[test]
fn test_report_from_wrong_node_fails() {
    let mut e = Engine::new();
    prepare_billing_setup(&mut e);
    // A second node, run by bob's twin.
    e.add_node(1, 2, Resources { hru: 1, sru: 1, cru: 1, mru: 1 }).unwrap();
    e.create_node_contract(
        ALICE,
        1,
        "some_data".as_bytes().to_vec(),
        "hash".as_bytes().to_vec(),
        0,
    )
    .unwrap();
    let report = Consumption {
        contract_id: 1,
        timestamp: 10,
        cru: 0,
        sru: 0,
        hru: 0,
        mru: 0,
        nru: 0,
    };
    // Bob's node did not host this contract.
    assert_eq!(
        e.submit_consumption_reports(BOB, vec![report]),
        Err(Error::NodeNotAuthorizedToComputeReport)
    );
}

#[test]
fn test_report_without_pricing_policy_fails() {
    let mut e = Engine::new();
    e.add_twin(ALICE);
    // A farm naming a pricing policy that was never registered.
    e.add_farm(
        "lone_farm".as_bytes().to_vec(),
        1,
        9,
        CertificationType::Diy,
        Vec::new(),
    )
    .unwrap();
    e.add_node(1, 1, Resources { hru: 0, sru: 0, cru: 0, mru: 0 }).unwrap();
    assert_eq!(
        e.submit_consumption_reports(ALICE, Vec::new()),
        Err(Error::PricingPolicyNotExists)
    );
}

#[test]
fn test_report_cost_overflow_is_rejected() {
    let mut e = Engine::new();
    e.add_twin(ALICE);
    // An absurd rate table together with an absurd elapsed time pushes
    // the cost out of the arithmetic range.
    e.add_pricing_policy(
        "big_policy".as_bytes().to_vec(),
        Policy { value: 4294967295, unit: Unit::Bytes },
        Policy { value: 4294967295, unit: Unit::Bytes },
        Policy { value: 4294967295, unit: Unit::Bytes },
        Policy { value: 4294967295, unit: Unit::Bytes },
        FERDIE,
        EVE,
    );
    e.add_farm(
        "big_farm".as_bytes().to_vec(),
        1,
        1,
        CertificationType::Diy,
        Vec::new(),
    )
    .unwrap();
    e.add_node(1, 1, Resources { hru: 0, sru: 0, cru: 0, mru: 0 }).unwrap();
    e.create_node_contract(
        ALICE,
        1,
        "d".as_bytes().to_vec(),
        "h".as_bytes().to_vec(),
        0,
    )
    .unwrap();
    let report = Consumption {
        contract_id: 1,
        timestamp: 18446744073709551615,
        cru: 2,
        sru: 18446744073709551615,
        hru: 0,
        mru: 0,
        nru: 0,
    };
    assert_eq!(
        e.submit_consumption_reports(ALICE, vec![report]),
        Err(Error::CostOverflow)
    );
}

#[test]
fn test_deposit_beyond_issuance_cap_fails() {
    let mut e = Engine::new();
    assert!(e.deposit_balance(ALICE, MAX_TOTAL_ISSUANCE).is_ok());
    assert_eq!(e.deposit_balance(BOB, 1), Err(Error::BalanceOverflow));
    assert_eq!(e.free_balance(ALICE), MAX_TOTAL_ISSUANCE);
    assert_eq!(e.free_balance(BOB), 0);
}
