use smart_contract::contracts::{
    Contract, ContractData, ContractState, Error, Event, NameContract, NodeContract,
};
use smart_contract::engine::Engine;
use smart_contract::types::{CertificationType, Policy, PublicIP, Resources, Unit};

const ALICE: u64 = 1;
const BOB: u64 = 2;
const FERDIE: u64 = 10;
const EVE: u64 = 11;

fn prepare_farm_and_node(e: &mut Engine) {
    e.add_twin(ALICE);
    e.add_twin(BOB);
    let su_policy = Policy { value: 150000, unit: Unit::Gigabytes };
    let cu_policy = Policy { value: 300000, unit: Unit::Gigabytes };
    let nu_policy = Policy { value: 1000, unit: Unit::Gigabytes };
    let ipu_policy = Policy { value: 50000, unit: Unit::Gigabytes };
    e.add_pricing_policy(
        "policy_1".as_bytes().to_vec(),
        su_policy,
        cu_policy,
        nu_policy,
        ipu_policy,
        FERDIE,
        EVE,
    );
    let pub_ips = vec![PublicIP {
        ip: "1.1.1.0".as_bytes().to_vec(),
        gateway: "1.1.1.1".as_bytes().to_vec(),
        contract_id: 0,
    }];
    e.add_farm(
        "test_farm".as_bytes().to_vec(),
        1,
        1,
        CertificationType::Diy,
        pub_ips,
    )
    .unwrap();
    e.add_node(1, 1, Resources { hru: 1, sru: 1, cru: 1, mru: 1 }).unwrap();
}

#[test]
fn test_create_contract_works() {
    let mut e = Engine::new();
    prepare_farm_and_node(&mut e);
    assert!(e
        .create_node_contract(
            ALICE,
            1,
            "some_data".as_bytes().to_vec(),
            "hash".as_bytes().to_vec(),
            0
        )
        .is_ok());
}

#[test]
fn test_create_node_contract_with_public_ips_works() {
    let mut e = Engine::new();
    prepare_farm_and_node(&mut e);
    assert!(e
        .create_node_contract(
            ALICE,
            1,
            "some_data".as_bytes().to_vec(),
            "hash".as_bytes().to_vec(),
            1
        )
        .is_ok());
    let node_contract = e.contracts(1).unwrap();
    match &node_contract.contract_type {
        ContractData::NodeContract(c) => {
            let farm = e.farms(1).unwrap();
            assert_eq!(farm.public_ips[0].contract_id, 1);
            assert_eq!(c.public_ips, 1);
            assert_eq!(c.public_ips_list[0].ip, "1.1.1.0".as_bytes().to_vec());
        }
        _ => panic!("expected a node contract"),
    }
}

#[test]
fn test_create_contract_with_undefined_node_fails() {
    let mut e = Engine::new();
    prepare_farm_and_node(&mut e);
    assert_eq!(
        e.create_node_contract(
            ALICE,
            2,
            "some_data".as_bytes().to_vec(),
            "hash".as_bytes().to_vec(),
            0
        ),
        Err(Error::NodeNotExists)
    );
}

#[test]
fn test_create_contract_with_same_hash_and_node_fails() {
    let mut e = Engine::new();
    prepare_farm_and_node(&mut e);
    assert!(e
        .create_node_contract(
            ALICE,
            1,
            "some_data".as_bytes().to_vec(),
            "hash".as_bytes().to_vec(),
            0
        )
        .is_ok());
    assert_eq!(
        e.create_node_contract(
            ALICE,
            1,
            "some_data".as_bytes().to_vec(),
            "hash".as_bytes().to_vec(),
            0
        ),
        Err(Error::ContractIsNotUnique)
    );
}

#[test]
fn test_create_contract_which_was_canceled_before_works() {
    let mut e = Engine::new();
    prepare_farm_and_node(&mut e);
    assert!(e
        .create_node_contract(
            ALICE,
            1,
            "some_data".as_bytes().to_vec(),
            "hash".as_bytes().to_vec(),
            0
        )
        .is_ok());
    let contract_id = e.node_contract_by_hash(1, &"hash".as_bytes().to_vec());
    assert_eq!(contract_id, 1);
    assert!(e.cancel_contract(ALICE, 1).is_ok());
    assert!(e
        .create_node_contract(
            ALICE,
            1,
            "some_data".as_bytes().to_vec(),
            "hash".as_bytes().to_vec(),
            0
        )
        .is_ok());
    let contract_id = e.node_contract_by_hash(1, &"hash".as_bytes().to_vec());
    assert_eq!(contract_id, 2);
}

#[test]
fn test_update_contract_works() {
    let mut e = Engine::new();
    prepare_farm_and_node(&mut e);
    assert!(e
        .create_node_contract(
            ALICE,
            1,
            "some_data".as_bytes().to_vec(),
            "hash".as_bytes().to_vec(),
            0
        )
        .is_ok());
    assert!(e
        .update_contract(
            ALICE,
            1,
            "no_data".as_bytes().to_vec(),
            "some_other_hash".as_bytes().to_vec()
        )
        .is_ok());

    let node_contract = NodeContract {
        node_id: 1,
        deployment_data: "no_data".as_bytes().to_vec(),
        deployment_hash: "some_other_hash".as_bytes().to_vec(),
        public_ips: 0,
        public_ips_list: Vec::new(),
    };
    let contract_type = ContractData::NodeContract(node_contract);
    let expected_contract_value = Contract {
        contract_id: 1,
        state: ContractState::Created,
        twin_id: 1,
        version: 1,
        contract_type,
    };
    let node_contract = e.contracts(1).unwrap();
    assert_eq!(*node_contract, expected_contract_value);

    let contracts = e.node_contracts(1, ContractState::Created);
    assert_eq!(contracts.len(), 1);
    assert_eq!(contracts[0], 1);

    let node_contract_id_by_hash =
        e.node_contract_by_hash(1, &"some_other_hash".as_bytes().to_vec());
    assert_eq!(node_contract_id_by_hash, 1);
}

#[test]
fn test_update_contract_not_exists_fails() {
    let mut e = Engine::new();
    prepare_farm_and_node(&mut e);
    assert_eq!(
        e.update_contract(
            ALICE,
            1,
            "some_data".as_bytes().to_vec(),
            "hash".as_bytes().to_vec()
        ),
        Err(Error::ContractNotExists)
    );
}

#[test]
fn test_update_contract_wrong_twins_fails() {
    let mut e = Engine::new();
    prepare_farm_and_node(&mut e);
    assert!(e
        .create_node_contract(
            ALICE,
            1,
            "some_data".as_bytes().to_vec(),
            "hash".as_bytes().to_vec(),
            0
        )
        .is_ok());
    assert_eq!(
        e.update_contract(
            BOB,
            1,
            "some_data".as_bytes().to_vec(),
            "hash".as_bytes().to_vec()
        ),
        Err(Error::TwinNotAuthorizedToUpdateContract)
    );
}

#[test]
fn test_cancel_contract_works() {
    let mut e = Engine::new();
    prepare_farm_and_node(&mut e);
    assert!(e
        .create_node_contract(
            ALICE,
            1,
            "some_data".as_bytes().to_vec(),
            "hash".as_bytes().to_vec(),
            0
        )
        .is_ok());
    assert!(e.cancel_contract(ALICE, 1).is_ok());

    let node_contract = NodeContract {
        node_id: 1,
        deployment_data: "some_data".as_bytes().to_vec(),
        deployment_hash: "hash".as_bytes().to_vec(),
        public_ips: 0,
        public_ips_list: Vec::new(),
    };
    let contract_type = ContractData::NodeContract(node_contract);
    let expected_contract_value = Contract {
        contract_id: 1,
        state: ContractState::Deleted,
        twin_id: 1,
        version: 1,
        contract_type,
    };
    let node_contract = e.contracts(1).unwrap();
    assert_eq!(*node_contract, expected_contract_value);

    let contracts = e.node_contracts(1, ContractState::Created);
    assert_eq!(contracts.len(), 0);
}

#[test]
fn test_cancel_name_contract_works() {
    let mut e = Engine::new();
    prepare_farm_and_node(&mut e);
    assert!(e
        .create_name_contract(ALICE, "some_name".as_bytes().to_vec())
        .is_ok());
    assert!(e.cancel_contract(ALICE, 1).is_ok());

    let name_contract = NameContract { name: "some_name".as_bytes().to_vec() };
    let contract_type = ContractData::NameContract(name_contract);
    let expected_contract_value = Contract {
        contract_id: 1,
        state: ContractState::Deleted,
        twin_id: 1,
        version: 1,
        contract_type,
    };
    let name_contract = e.contracts(1).unwrap();
    assert_eq!(*name_contract, expected_contract_value);

    let contract_id = e.contract_id_by_name_registration(&"some_name".as_bytes().to_vec());
    assert_eq!(contract_id, 0);
}

#[test]
fn test_cancel_contract_works_public_ips_frees_ip() {
    let mut e = Engine::new();
    prepare_farm_and_node(&mut e);
    assert!(e
        .create_node_contract(
            ALICE,
            1,
            "some_data".as_bytes().to_vec(),
            "hash".as_bytes().to_vec(),
            1
        )
        .is_ok());
    assert_eq!(e.farms(1).unwrap().public_ips[0].contract_id, 1);
    assert!(e.cancel_contract(ALICE, 1).is_ok());
    assert_eq!(e.farms(1).unwrap().public_ips[0].contract_id, 0);
}

#[test]
fn test_cancel_contract_not_exists_fails() {
    let mut e = Engine::new();
    prepare_farm_and_node(&mut e);
    assert_eq!(e.cancel_contract(ALICE, 1), Err(Error::ContractNotExists));
}

#[test]
fn test_cancel_contract_wrong_twins_fails() {
    let mut e = Engine::new();
    prepare_farm_and_node(&mut e);
    assert!(e
        .create_node_contract(
            ALICE,
            1,
            "some_data".as_bytes().to_vec(),
            "hash".as_bytes().to_vec(),
            0
        )
        .is_ok());
    assert_eq!(
        e.cancel_contract(BOB, 1),
        Err(Error::TwinNotAuthorizedToCancelContract)
    );
}

#[test]
fn test_create_name_contract() {
    let mut e = Engine::new();
    prepare_farm_and_node(&mut e);
    assert!(e
        .create_name_contract(BOB, "foobar".as_bytes().to_vec())
        .is_ok());
}

#[test]
fn test_create_name_contract_double_with_same_name_fails() {
    let mut e = Engine::new();
    prepare_farm_and_node(&mut e);
    assert!(e
        .create_name_contract(BOB, "foobar".as_bytes().to_vec())
        .is_ok());
    assert_eq!(
        e.create_name_contract(ALICE, "foobar".as_bytes().to_vec()),
        Err(Error::NameExists)
    );
}

#[test]
fn test_recreate_name_contract_after_cancel_works() {
    let mut e = Engine::new();
    prepare_farm_and_node(&mut e);
    assert!(e
        .create_name_contract(BOB, "foobar".as_bytes().to_vec())
        .is_ok());
    assert!(e.cancel_contract(BOB, 1).is_ok());
    assert!(e
        .create_name_contract(BOB, "foobar".as_bytes().to_vec())
        .is_ok());
}

#[test]
fn test_name_registration_fails_with_invalid_dns_name() {
    let mut e = Engine::new();
    prepare_farm_and_node(&mut e);
    assert_eq!(
        e.create_name_contract(ALICE, "foo.bar".as_bytes().to_vec()),
        Err(Error::NameNotValid)
    );
    assert_eq!(
        e.create_name_contract(ALICE, "foo!".as_bytes().to_vec()),
        Err(Error::NameNotValid)
    );
    assert_eq!(
        e.create_name_contract(ALICE, "foo;'".as_bytes().to_vec()),
        Err(Error::NameNotValid)
    );
    assert_eq!(
        e.create_name_contract(ALICE, "foo123.%".as_bytes().to_vec()),
        Err(Error::NameNotValid)
    );
}

#[test]
fn test_update_name_contract_wrong_type_fails() {
    let mut e = Engine::new();
    prepare_farm_and_node(&mut e);
    assert!(e
        .create_name_contract(BOB, "foobar".as_bytes().to_vec())
        .is_ok());
    assert_eq!(
        e.update_contract(
            BOB,
            1,
            "data".as_bytes().to_vec(),
            "hash".as_bytes().to_vec()
        ),
        Err(Error::WrongContractType)
    );
}

#[test]
fn test_create_contract_unknown_twin_fails() {
    let mut e = Engine::new();
    prepare_farm_and_node(&mut e);
    assert_eq!(
        e.create_node_contract(
            99,
            1,
            "some_data".as_bytes().to_vec(),
            "hash".as_bytes().to_vec(),
            0
        ),
        Err(Error::TwinNotExists)
    );
}

#[test]
fn test_create_contract_not_enough_public_ips_fails() {
    let mut e = Engine::new();
    prepare_farm_and_node(&mut e);
    assert_eq!(
        e.create_node_contract(
            ALICE,
            1,
            "some_data".as_bytes().to_vec(),
            "hash".as_bytes().to_vec(),
            2
        ),
        Err(Error::FarmHasNotEnoughPublicIPs)
    );
}

#[test]
fn test_create_contract_no_free_public_ips_fails() {
    let mut e = Engine::new();
    prepare_farm_and_node(&mut e);
    assert!(e
        .create_node_contract(
            ALICE,
            1,
            "some_data".as_bytes().to_vec(),
            "hash".as_bytes().to_vec(),
            1
        )
        .is_ok());
    assert_eq!(
        e.create_node_contract(
            ALICE,
            1,
            "other_data".as_bytes().to_vec(),
            "other_hash".as_bytes().to_vec(),
            1
        ),
        Err(Error::FarmHasNotEnoughPublicIPsFree)
    );
}

#[test]
fn test_add_farm_with_leased_ip_fails() {
    let mut e = Engine::new();
    e.add_twin(ALICE);
    let bad_ips = vec![PublicIP {
        ip: "1.1.1.0".as_bytes().to_vec(),
        gateway: "1.1.1.1".as_bytes().to_vec(),
        contract_id: 7,
    }];
    assert_eq!(
        e.add_farm(
            "bad_farm".as_bytes().to_vec(),
            1,
            1,
            CertificationType::Diy,
            bad_ips
        ),
        Err(Error::IPNotFree)
    );
}

#[test]
fn test_add_node_unknown_farm_fails() {
    let mut e = Engine::new();
    e.add_twin(ALICE);
    assert_eq!(
        e.add_node(5, 1, Resources { hru: 0, sru: 0, cru: 0, mru: 0 }),
        Err(Error::FarmNotExists)
    );
}

#[test]
fn test_cancel_reports_freed_addresses() {
    let mut e = Engine::new();
    prepare_farm_and_node(&mut e);
    assert!(e
        .create_node_contract(
            ALICE,
            1,
            "some_data".as_bytes().to_vec(),
            "hash".as_bytes().to_vec(),
            1
        )
        .is_ok());
    let events = e.cancel_contract(ALICE, 1).unwrap();
    assert_eq!(events.len(), 2);
    match &events[0] {
        Event::IPsFreed(contract_id, freed) => {
            assert_eq!(*contract_id, 1);
            assert_eq!(freed.len(), 1);
            assert_eq!(freed[0], "1.1.1.0".as_bytes().to_vec());
        }
        _ => panic!("expected the freed addresses"),
    }
    assert_eq!(events[1], Event::ContractCanceled(1));
}

#[test]
fn test_name_rejects_bracket_characters() {
    let mut e = Engine::new();
    prepare_farm_and_node(&mut e);
    assert_eq!(
        e.create_name_contract(ALICE, "foo^bar".as_bytes().to_vec()),
        Err(Error::NameNotValid)
    );
    assert_eq!(
        e.create_name_contract(ALICE, "foo`".as_bytes().to_vec()),
        Err(Error::NameNotValid)
    );
    assert_eq!(
        e.create_name_contract(ALICE, "[foo]".as_bytes().to_vec()),
        Err(Error::NameNotValid)
    );
    assert!(e
        .create_name_contract(ALICE, "foo_bar".as_bytes().to_vec())
        .is_ok());
}
