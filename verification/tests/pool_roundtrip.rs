use smart_contract::contracts::Error;
use smart_contract::pool::{count_free, free_ips, reserve_ips};
use smart_contract::types::PublicIP;

fn addr(ip: &str, contract_id: u64) -> PublicIP {
    PublicIP {
        ip: ip.as_bytes().to_vec(),
        gateway: "1.1.1.1".as_bytes().to_vec(),
        contract_id,
    }
}

#[test]
fn test_reserve_marks_first_free_addresses() {
    let mut ips = vec![addr("1.1.1.0", 9), addr("1.1.1.2", 0), addr("1.1.1.3", 0), addr("1.1.1.4", 0)];
    let list = reserve_ips(&mut ips, 2, 5).unwrap();
    assert_eq!(list.len(), 2);
    assert_eq!(list[0].ip, "1.1.1.2".as_bytes().to_vec());
    assert_eq!(list[1].ip, "1.1.1.3".as_bytes().to_vec());
    assert_eq!(ips[0].contract_id, 9);
    assert_eq!(ips[1].contract_id, 5);
    assert_eq!(ips[2].contract_id, 5);
    assert_eq!(ips[3].contract_id, 0);
}

#[test]
fn test_reserve_too_few_addresses_fails() {
    let mut ips = vec![addr("1.1.1.0", 0)];
    assert_eq!(reserve_ips(&mut ips, 2, 5), Err(Error::FarmHasNotEnoughPublicIPs));
    assert_eq!(ips[0].contract_id, 0);
}

#[test]
fn test_reserve_too_few_free_addresses_fails_atomically() {
    let mut ips = vec![addr("1.1.1.0", 0), addr("1.1.1.2", 9)];
    assert_eq!(
        reserve_ips(&mut ips, 2, 5),
        Err(Error::FarmHasNotEnoughPublicIPsFree)
    );
    // No partial reservation was committed.
    assert_eq!(ips[0].contract_id, 0);
    assert_eq!(ips[1].contract_id, 9);
}

#[test]
fn test_reserve_then_release_restores_free_set() {
    let original = vec![addr("1.1.1.0", 9), addr("1.1.1.2", 0), addr("1.1.1.3", 0)];
    let mut ips = original.clone();
    assert_eq!(count_free(&ips), 2);
    reserve_ips(&mut ips, 2, 5).unwrap();
    assert_eq!(count_free(&ips), 0);
    free_ips(&mut ips, 5);
    assert_eq!(count_free(&ips), 2);
    assert_eq!(ips, original);
}

#[test]
fn test_release_is_idempotent() {
    let mut ips = vec![addr("1.1.1.0", 0), addr("1.1.1.2", 5)];
    free_ips(&mut ips, 7);
    assert_eq!(ips[0].contract_id, 0);
    assert_eq!(ips[1].contract_id, 5);
    free_ips(&mut ips, 5);
    free_ips(&mut ips, 5);
    assert_eq!(ips[1].contract_id, 0);
}
