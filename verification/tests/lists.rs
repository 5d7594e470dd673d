use quorum_credit::host::{AddressList, VouchList};
use quorum_credit::types::VouchRecord;
use soroban_sdk::Env;

#[test]
fn address_list_keeps_order() {
    let env = Env::default();
    let list = AddressList::new(&env).with(7).with(u64::MAX).with(7);
    assert_eq!(list.len(), 3);
    assert_eq!(list.get(0), Some(7));
    assert_eq!(list.get(1), Some(u64::MAX));
    assert_eq!(list.get(2), Some(7));
    assert_eq!(list.get(3), None);
    assert!(list.contains(u64::MAX));
    assert!(!list.contains(8));
    assert_eq!(AddressList::new(&env).len(), 0);
}

#[test]
fn vouch_list_keeps_every_field() {
    let env = Env::default();
    let a = VouchRecord { voucher: 1, stake: i128::MIN, vouch_timestamp: u64::MAX, token: 9 };
    let b = VouchRecord { voucher: 2, stake: i128::MAX, vouch_timestamp: 0, token: 10 };
    let list = VouchList::new(&env).with(a).with(b);
    assert_eq!(list.len(), 2);
    assert_eq!(list.get(0), Some(a));
    assert_eq!(list.get(1), Some(b));
    assert_eq!(list.get(2), None);
    assert_eq!(VouchList::new(&env).get(0), None);
}
